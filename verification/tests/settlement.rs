use contest_engine::allocation::Allocation;
use contest_engine::contest::{ContestStatus, Schedule};
use contest_engine::engine::Engine;
use contest_engine::error::ErrorKind;
use contest_engine::ledger::EntryKind;
use contest_engine::market::PriceStore;
use contest_engine::model::{Contest, Settlement};
use contest_engine::settlement::PayoutCurve;

const CONTEST: u128 = 900;
const A: u128 = 11;

/// A contest with a fee of 10.00 that has ended with `users` ranked in the
/// order given (the first one best).
fn ended_engine(users: &[u128]) -> Engine {
    let mut e = Engine::new();
    e.add_contest(Contest {
        id: CONTEST,
        title: "Weekly".to_string(),
        track: "equity".to_string(),
        entry_fee: 1_000,
        virtual_capital: 10_000,
        schedule: Schedule {
            open_time: 0,
            allocation_deadline: 1_000,
            start_time: 2_000,
            end_time: 3_000,
            slots: 0,
        },
        status: ContestStatus::JoiningOpen,
        assets: vec![A],
    })
    .unwrap();
    let mut prices = PriceStore::new();
    prices.upsert(A, 0, 100, None).unwrap();
    for (k, u) in users.iter().enumerate() {
        e.open_account(*u, 0).unwrap();
        e.join_as(CONTEST, *u, *u, 1).unwrap();
        let set = vec![Allocation { asset: A, percentage: 10_000 }];
        e.lock_allocation(CONTEST, *u, set, 10 + k as i64).unwrap();
    }
    e.run_scheduler(2_500);
    e.recompute_leaderboard(CONTEST, &prices, 2_500).unwrap();
    assert_eq!(e.run_scheduler(3_000), vec![CONTEST]);
    e
}

fn curve(fractions: &[u32]) -> PayoutCurve {
    PayoutCurve::new(fractions.to_vec()).unwrap()
}

#[test]
fn settlement_pays_the_curve_and_sets_the_results() {
    let mut e = ended_engine(&[1, 2, 3]);
    let out = e.settle(CONTEST, &curve(&[6_000, 3_000]), 3_100).unwrap();
    assert_eq!(out, Settlement::Settled { pool: 3_000 });
    assert_eq!(e.contest(CONTEST).unwrap().status, ContestStatus::Settled);
    // 1000.00 - 10.00 + 60% of 30.00, and so on.
    assert_eq!(e.wallet(1).unwrap().balance, 99_000 + 1_800);
    assert_eq!(e.wallet(2).unwrap().balance, 99_000 + 900);
    assert_eq!(e.wallet(3).unwrap().balance, 99_000);
    let r1 = e.contest_results(CONTEST, 1).unwrap();
    assert_eq!((r1.rank, r1.final_value, r1.payout), (1, 10_000, Some(1_800)));
    let r2 = e.contest_results(CONTEST, 2).unwrap();
    assert_eq!((r2.rank, r2.final_value, r2.payout), (2, 10_000, Some(900)));
    let r3 = e.contest_results(CONTEST, 3).unwrap();
    assert_eq!((r3.rank, r3.final_value, r3.payout), (3, 10_000, None));
    let last = e.transactions(1)[0];
    assert_eq!(
        (last.amount, last.kind, last.reference, last.timestamp),
        (1_800, EntryKind::Payout, Some(CONTEST), 3_100)
    );
    assert_eq!(e.transactions(3)[0].kind, EntryKind::EntryFee);
}

#[test]
fn settlement_is_idempotent() {
    let mut e = ended_engine(&[1, 2]);
    let c = curve(&[7_000, 3_000]);
    assert_eq!(e.settle(CONTEST, &c, 3_100), Ok(Settlement::Settled { pool: 2_000 }));
    let balances = (e.wallet(1).unwrap().balance, e.wallet(2).unwrap().balance);
    let entries = (e.transactions(1).len(), e.transactions(2).len());
    for _ in 0..5 {
        assert_eq!(e.settle(CONTEST, &c, 3_200), Ok(Settlement::AlreadySettled));
    }
    assert_eq!((e.wallet(1).unwrap().balance, e.wallet(2).unwrap().balance), balances);
    assert_eq!((e.transactions(1).len(), e.transactions(2).len()), entries);
    assert_eq!(e.transactions(1).iter().filter(|t| t.kind == EntryKind::Payout).count(), 1);
    assert_eq!(e.contest(CONTEST).unwrap().status, ContestStatus::Settled);
    assert!(e.run_scheduler(9_999).is_empty());
    assert_eq!(e.contest(CONTEST).unwrap().status, ContestStatus::Settled);
}

#[test]
fn settlement_before_the_end_is_conflict() {
    let mut e = Engine::new();
    for (id, status) in [
        (1u128, ContestStatus::Upcoming),
        (2, ContestStatus::JoiningOpen),
        (3, ContestStatus::AllocationLocked),
        (4, ContestStatus::Live),
    ] {
        e.add_contest(Contest {
            id,
            title: String::new(),
            track: String::new(),
            entry_fee: 0,
            virtual_capital: 0,
            schedule: Schedule {
                open_time: i64::MAX,
                allocation_deadline: i64::MAX,
                start_time: i64::MAX,
                end_time: i64::MAX,
                slots: 0,
            },
            status,
            assets: vec![],
        })
        .unwrap();
        let err = e.settle(id, &curve(&[10_000]), 1).unwrap_err();
        assert_eq!(err.kind(), ErrorKind::Conflict);
        assert_eq!(e.contest(id).unwrap().status, status);
    }
    assert_eq!(e.settle(77, &curve(&[10_000]), 1).unwrap_err().kind(), ErrorKind::NotFound);
}

#[test]
fn results_before_settlement_are_conflict() {
    let e = ended_engine(&[1]);
    let err = e.contest_results(CONTEST, 1).unwrap_err();
    assert_eq!(err.kind(), ErrorKind::Conflict);
    assert_eq!(err.message(), "Contest not yet settled");
    assert_eq!(e.contest_results(CONTEST, 9).unwrap_err().kind(), ErrorKind::NotFound);
}

#[test]
fn settlement_that_cannot_credit_changes_nothing() {
    let mut e = ended_engine(&[1, 2]);
    // The winner's wallet is a hair below the top of the range.
    let room = 500;
    e.adjust(1, i64::MAX - room - e.wallet(1).unwrap().balance, 3_050).unwrap();
    let before = (e.wallet(1).unwrap().balance, e.wallet(2).unwrap().balance);
    let err = e.settle(CONTEST, &curve(&[5_000, 5_000]), 3_100).unwrap_err();
    assert_eq!(err.kind(), ErrorKind::Internal);
    assert_eq!(e.contest(CONTEST).unwrap().status, ContestStatus::Ended);
    assert_eq!((e.wallet(1).unwrap().balance, e.wallet(2).unwrap().balance), before);
    assert_eq!(e.contest_results(CONTEST, 2).unwrap_err().kind(), ErrorKind::Conflict);
    // Once there is room the same call goes through.
    e.adjust(1, -1_000, 3_150).unwrap();
    assert_eq!(
        e.settle(CONTEST, &curve(&[5_000, 5_000]), 3_200),
        Ok(Settlement::Settled { pool: 2_000 })
    );
    assert_eq!(e.wallet(2).unwrap().balance, before.1 + 1_000);
}

#[test]
fn unranked_participant_has_no_result() {
    let mut e = ended_engine(&[1]);
    // A contest of its own for a user who never locks.
    let mut f = ended_engine(&[]);
    assert_eq!(f.settle(CONTEST, &curve(&[10_000]), 1), Ok(Settlement::Settled { pool: 0 }));
    e.settle(CONTEST, &curve(&[]), 3_100).unwrap();
    let r = e.contest_results(CONTEST, 1).unwrap();
    assert_eq!((r.rank, r.payout), (1, None));
    assert_eq!(e.wallet(1).unwrap().balance, 99_000);
}

#[test]
fn payout_curve_sums_to_at_most_the_pool() {
    assert!(PayoutCurve::new(vec![]).is_ok());
    assert!(PayoutCurve::new(vec![10_000]).is_ok());
    assert!(PayoutCurve::new(vec![5_000, 3_000, 2_000]).is_ok());
    assert_eq!(
        PayoutCurve::new(vec![5_000, 3_000, 2_001]).unwrap_err().kind(),
        ErrorKind::Validation
    );
    assert_eq!(
        PayoutCurve::new(vec![u32::MAX, u32::MAX]).unwrap_err().kind(),
        ErrorKind::Validation
    );
}

#[test]
fn payout_is_the_share_rounded_down() {
    let c = curve(&[5_000, 3_333, 1_667]);
    assert_eq!(c.paid_ranks(), 3);
    assert_eq!(c.payout(3_000, 1), Some(1_500));
    assert_eq!(c.payout(1_001, 2), Some(333));
    assert_eq!(c.payout(1_001, 3), Some(166));
    assert_eq!(c.payout(1_001, 0), None);
    assert_eq!(c.payout(1_001, 4), None);
    assert_eq!(curve(&[10_000]).payout(u64::MAX, 1), Some(u64::MAX));
    let total: u64 = (1..=3).map(|r| c.payout(1_001, r).unwrap()).sum();
    assert!(total <= 1_001);
}

#[test]
fn settlement_never_pays_more_than_the_pool() {
    for fractions in [vec![3_333, 3_333, 3_334], vec![10_000], vec![1, 1, 1, 1], vec![9_999, 1]] {
        let mut e = ended_engine(&[1, 2, 3, 4]);
        let pool = match e.settle(CONTEST, &curve(&fractions), 3_100).unwrap() {
            Settlement::Settled { pool } => pool,
            Settlement::AlreadySettled => unreachable!(),
        };
        assert_eq!(pool, 4_000);
        let paid: i64 = (1..=4u128)
            .flat_map(|u| e.transactions(u))
            .filter(|t| t.kind == EntryKind::Payout)
            .map(|t| t.amount)
            .sum();
        assert!(paid >= 0 && paid <= pool);
        let told: i64 =
            (1..=4u128).filter_map(|u| e.contest_results(CONTEST, u).unwrap().payout).sum();
        assert_eq!(paid, told);
    }
}
