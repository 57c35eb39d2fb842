use contest_engine::allocation::{total_percentage, validate_allocations, Allocation};
use contest_engine::contest::{ContestStatus, Schedule};
use contest_engine::engine::Engine;
use contest_engine::error::ErrorKind;
use contest_engine::leaderboard::{rank_standings, stands_before, Standing};
use contest_engine::market::PriceStore;
use contest_engine::model::Contest;
use contest_engine::valuation::{portfolio_value, position_value};

const CONTEST: u128 = 900;
const A: u128 = 11;
const B: u128 = 12;

fn share(asset: u128, percentage: u32) -> Allocation {
    Allocation { asset, percentage }
}

fn standing(user: u128, value: i64, locked_at: i64) -> Standing {
    Standing { user, value, locked_at }
}

/// A contest with a capital of 100.00, open for joining, and `users` enrolled.
fn engine_with(users: &[u128]) -> Engine {
    let mut e = Engine::new();
    e.add_contest(Contest {
        id: CONTEST,
        title: "Weekly".to_string(),
        track: "equity".to_string(),
        entry_fee: 1_000,
        virtual_capital: 10_000,
        schedule: Schedule {
            open_time: 0,
            allocation_deadline: 1_000,
            start_time: 2_000,
            end_time: 3_000,
            slots: 0,
        },
        status: ContestStatus::JoiningOpen,
        assets: vec![A, B],
    })
    .unwrap();
    for u in users {
        e.open_account(*u, 0).unwrap();
        e.join_as(CONTEST, *u, *u, 1).unwrap();
    }
    e
}

#[test]
fn position_value_follows_the_formula() {
    // 1000.00 of capital, 60% in an asset that went from 1.00 to 1.50.
    assert_eq!(position_value(100_000, 6_000, 100, 150), Some(90_000));
    // Rounded down to a hundredth.
    assert_eq!(position_value(10_000, 3_333, 300, 100), Some(1_111));
    assert_eq!(position_value(1, 1, 1, 1), Some(0));
    assert_eq!(position_value(0, 10_000, 5, 7), Some(0));
}

#[test]
fn position_value_is_undefined_without_positive_prices() {
    assert_eq!(position_value(100, 10_000, 0, 1), None);
    assert_eq!(position_value(100, 10_000, 1, 0), None);
    assert_eq!(position_value(100, 10_000, -1, 1), None);
    assert_eq!(position_value(-1, 10_000, 1, 1), None);
    assert_eq!(position_value(i64::MAX, u32::MAX, 1, i64::MAX), None);
}

#[test]
fn portfolio_value_sums_the_positions() {
    let mut prices = PriceStore::new();
    prices.upsert(A, 0, 100, None).unwrap();
    prices.upsert(A, 60, 150, None).unwrap();
    prices.upsert(B, 0, 200, None).unwrap();
    prices.upsert(B, 60, 100, None).unwrap();
    let set = vec![share(A, 6_000), share(B, 4_000)];
    // 100.00 * 0.6 * 1.5 + 100.00 * 0.4 * 0.5 = 90.00 + 20.00
    assert_eq!(portfolio_value(10_000, &set, &prices, 10, 70), Ok(11_000));
    // Unchanged prices give the capital back.
    assert_eq!(portfolio_value(10_000, &set, &prices, 10, 59), Ok(10_000));
    assert_eq!(portfolio_value(10_000, &vec![], &prices, 10, 70), Ok(0));
}

#[test]
fn portfolio_value_without_price_is_internal() {
    let mut prices = PriceStore::new();
    prices.upsert(A, 60, 150, None).unwrap();
    let set = vec![share(A, 10_000)];
    // No candle at or before the lock.
    assert_eq!(
        portfolio_value(10_000, &set, &prices, 10, 70).unwrap_err().kind(),
        ErrorKind::Internal
    );
    // No candle of the asset at all.
    assert_eq!(
        portfolio_value(10_000, &vec![share(B, 10_000)], &prices, 100, 100).unwrap_err().kind(),
        ErrorKind::Internal
    );
    assert_eq!(portfolio_value(10_000, &set, &prices, 60, 70), Ok(10_000));
}

#[test]
fn portfolio_value_beyond_the_range_is_internal() {
    let mut prices = PriceStore::new();
    prices.upsert(A, 0, 1, None).unwrap();
    prices.upsert(A, 60, i64::MAX, None).unwrap();
    let set = vec![share(A, 10_000)];
    assert_eq!(
        portfolio_value(10, &set, &prices, 0, 60).unwrap_err().kind(),
        ErrorKind::Internal
    );
    assert_eq!(portfolio_value(1, &set, &prices, 0, 60), Ok(i64::MAX));
}

#[test]
fn ranking_orders_by_value_then_lock_then_user() {
    let input = vec![
        standing(1, 12_000, 50),
        standing(2, 15_000, 70),
        standing(3, 12_000, 40),
        standing(5, 9_000, 10),
        standing(4, 9_000, 10),
    ];
    let ranked = rank_standings(&input);
    let users: Vec<u128> = ranked.iter().map(|s| s.user).collect();
    assert_eq!(users, vec![2, 3, 1, 4, 5]);
    assert!(rank_standings(&vec![]).is_empty());
}

#[test]
fn stands_before_is_strict() {
    let a = standing(1, 100, 5);
    assert!(!stands_before(&a, &a));
    assert!(stands_before(&standing(1, 101, 9), &standing(2, 100, 1)));
    assert!(stands_before(&standing(2, 100, 1), &standing(1, 100, 2)));
    assert!(!stands_before(&standing(1, 100, 2), &standing(2, 100, 1)));
}

#[test]
fn leaderboard_ranks_higher_value_first() {
    // Values 150.00 and 120.00 at the time of the pass.
    let mut e = engine_with(&[1, 2]);
    let mut prices = PriceStore::new();
    prices.upsert(A, 0, 100, None).unwrap();
    prices.upsert(A, 60, 125, None).unwrap();
    prices.upsert(A, 120, 150, None).unwrap();
    e.lock_allocation(CONTEST, 2, vec![share(A, 10_000)], 70).unwrap();
    e.lock_allocation(CONTEST, 1, vec![share(A, 10_000)], 10).unwrap();
    e.run_scheduler(1_000);
    assert_eq!(e.recompute_leaderboard(CONTEST, &prices, 130), Ok(2));
    let board = e.leaderboard(CONTEST, 100).unwrap();
    let lines: Vec<(u64, u128, i64)> =
        board.iter().map(|l| (l.rank, l.user, l.portfolio_value)).collect();
    assert_eq!(lines, vec![(1, 1, 15_000), (2, 2, 12_000)]);
    assert!(board.iter().all(|l| l.contest == CONTEST && l.computed_at == 130));
    assert_eq!(e.value(CONTEST, 1, &prices, 130), Ok(15_000));
    assert_eq!(e.value(CONTEST, 2, &prices, 130), Ok(12_000));
}

#[test]
fn leaderboard_breaks_ties_by_earlier_lock() {
    let mut e = engine_with(&[1, 2, 3]);
    let mut prices = PriceStore::new();
    prices.upsert(A, 0, 100, None).unwrap();
    prices.upsert(A, 120, 150, None).unwrap();
    // All three are worth 150.00; user 3 locked first, then 1, then 2.
    e.lock_allocation(CONTEST, 1, vec![share(A, 10_000)], 20).unwrap();
    e.lock_allocation(CONTEST, 2, vec![share(A, 10_000)], 30).unwrap();
    e.lock_allocation(CONTEST, 3, vec![share(A, 10_000)], 10).unwrap();
    e.run_scheduler(1_000);
    e.recompute_leaderboard(CONTEST, &prices, 130).unwrap();
    let board = e.leaderboard(CONTEST, 100).unwrap();
    let lines: Vec<(u64, u128)> = board.iter().map(|l| (l.rank, l.user)).collect();
    assert_eq!(lines, vec![(1, 3), (2, 1), (3, 2)]);
}

#[test]
fn leaderboard_ranks_locked_participants_only() {
    let mut e = engine_with(&[1, 2]);
    let mut prices = PriceStore::new();
    prices.upsert(A, 0, 100, None).unwrap();
    e.lock_allocation(CONTEST, 1, vec![share(A, 10_000)], 20).unwrap();
    e.run_scheduler(1_000);
    assert_eq!(e.recompute_leaderboard(CONTEST, &prices, 130), Ok(1));
    assert_eq!(e.leaderboard(CONTEST, 100).unwrap()[0].user, 1);
    assert_eq!(e.value(CONTEST, 2, &prices, 130).unwrap_err().kind(), ErrorKind::Conflict);
    assert_eq!(e.value(CONTEST, 9, &prices, 130).unwrap_err().kind(), ErrorKind::NotFound);
}

#[test]
fn recompute_replaces_the_snapshot_whole() {
    let mut e = engine_with(&[1, 2]);
    let mut prices = PriceStore::new();
    prices.upsert(A, 0, 100, None).unwrap();
    prices.upsert(B, 0, 100, None).unwrap();
    e.lock_allocation(CONTEST, 1, vec![share(A, 10_000)], 20).unwrap();
    e.lock_allocation(CONTEST, 2, vec![share(B, 10_000)], 30).unwrap();
    e.run_scheduler(1_000);
    prices.upsert(A, 60, 200, None).unwrap();
    e.recompute_leaderboard(CONTEST, &prices, 100).unwrap();
    assert_eq!(e.leaderboard(CONTEST, 100).unwrap()[0].user, 1);
    prices.upsert(B, 120, 300, None).unwrap();
    e.recompute_leaderboard(CONTEST, &prices, 130).unwrap();
    let board = e.leaderboard(CONTEST, 100).unwrap();
    let lines: Vec<(u64, u128, i64, i64)> =
        board.iter().map(|l| (l.rank, l.user, l.portfolio_value, l.computed_at)).collect();
    assert_eq!(lines, vec![(1, 2, 30_000, 130), (2, 1, 20_000, 130)]);
}

#[test]
fn recompute_without_prices_keeps_the_previous_snapshot() {
    let mut e = engine_with(&[1]);
    let mut prices = PriceStore::new();
    prices.upsert(A, 0, 100, None).unwrap();
    e.lock_allocation(CONTEST, 1, vec![share(A, 10_000)], 20).unwrap();
    e.run_scheduler(1_000);
    e.recompute_leaderboard(CONTEST, &prices, 100).unwrap();
    let before = e.leaderboard(CONTEST, 100).unwrap();
    let empty = PriceStore::new();
    let err = e.recompute_leaderboard(CONTEST, &empty, 200).unwrap_err();
    assert_eq!(err.kind(), ErrorKind::Internal);
    assert_eq!(e.leaderboard(CONTEST, 100).unwrap(), before);
}

#[test]
fn recompute_outside_ranked_phases_is_conflict() {
    let mut e = engine_with(&[1]);
    let prices = PriceStore::new();
    assert_eq!(
        e.recompute_leaderboard(CONTEST, &prices, 1).unwrap_err().kind(),
        ErrorKind::Conflict
    );
    e.run_scheduler(5_000);
    assert_eq!(
        e.recompute_leaderboard(CONTEST, &prices, 1).unwrap_err().kind(),
        ErrorKind::Conflict
    );
    assert_eq!(
        e.recompute_leaderboard(1, &prices, 1).unwrap_err().kind(),
        ErrorKind::NotFound
    );
}

#[test]
fn leaderboard_read_is_limited_to_the_top() {
    let users: Vec<u128> = (1..=5).collect();
    let mut e = engine_with(&users);
    let mut prices = PriceStore::new();
    prices.upsert(A, 0, 100, None).unwrap();
    for u in &users {
        e.lock_allocation(CONTEST, *u, vec![share(A, 10_000)], 10 + *u as i64).unwrap();
    }
    e.run_scheduler(1_000);
    e.recompute_leaderboard(CONTEST, &prices, 100).unwrap();
    let top: Vec<u64> = e.leaderboard(CONTEST, 3).unwrap().iter().map(|l| l.rank).collect();
    assert_eq!(top, vec![1, 2, 3]);
    assert_eq!(e.leaderboard(CONTEST, 100).unwrap().len(), 5);
    assert!(e.leaderboard(CONTEST, 0).unwrap().is_empty());
    assert_eq!(e.leaderboard(1, 3).unwrap_err().kind(), ErrorKind::NotFound);
}

#[test]
fn contest_status_shows_rank_and_value_from_the_snapshot() {
    let mut e = engine_with(&[1, 2]);
    let mut prices = PriceStore::new();
    prices.upsert(A, 0, 100, None).unwrap();
    e.lock_allocation(CONTEST, 1, vec![share(A, 10_000)], 20).unwrap();
    let s = e.contest_status(CONTEST, 1).unwrap();
    assert_eq!(
        (s.status, s.current_rank, s.portfolio_value),
        (ContestStatus::JoiningOpen, None, None)
    );
    e.run_scheduler(2_500);
    e.recompute_leaderboard(CONTEST, &prices, 2_500).unwrap();
    let s = e.contest_status(CONTEST, 1).unwrap();
    assert_eq!(
        (s.status, s.current_rank, s.portfolio_value),
        (ContestStatus::Live, Some(1), Some(10_000))
    );
    let s = e.contest_status(CONTEST, 2).unwrap();
    assert_eq!((s.current_rank, s.portfolio_value), (None, None));
    assert_eq!(e.contest_status(1, 1).unwrap_err().kind(), ErrorKind::NotFound);
}

#[test]
fn allocation_sum_is_exact() {
    assert_eq!(total_percentage(&vec![share(A, 6_000), share(B, 4_000)]), 10_000);
    assert_eq!(
        total_percentage(&vec![share(A, u32::MAX), share(B, u32::MAX)]),
        2 * u32::MAX as u128
    );
    assert!(validate_allocations(&vec![share(A, 6_000), share(B, 4_000)]).is_ok());
    assert!(validate_allocations(&vec![share(A, 3_333), share(B, 3_333), share(A, 3_334)]).is_ok());
    assert_eq!(
        validate_allocations(&vec![share(A, 6_000), share(B, 3_900)]).unwrap_err().kind(),
        ErrorKind::Validation
    );
}
