use contest_engine::allocation::Allocation;
use contest_engine::contest::{ContestStatus, Schedule};
use contest_engine::engine::{Engine, JoinContestResponse};
use contest_engine::error::ErrorKind;
use contest_engine::ledger::EntryKind;
use contest_engine::model::Contest;

const CONTEST: u128 = 900;
const ASSET_A: u128 = 11;
const ASSET_B: u128 = 12;

fn schedule() -> Schedule {
    Schedule { open_time: 100, allocation_deadline: 200, start_time: 300, end_time: 400, slots: 0 }
}

fn contest(status: ContestStatus, entry_fee: i64) -> Contest {
    Contest {
        id: CONTEST,
        title: "Weekly".to_string(),
        track: "equity".to_string(),
        entry_fee,
        virtual_capital: 10_000,
        schedule: schedule(),
        status,
        assets: vec![ASSET_A, ASSET_B],
    }
}

/// An engine with one contest and the given users, each holding `balance`.
fn engine_with(status: ContestStatus, entry_fee: i64, users: &[(u128, i64)]) -> Engine {
    let mut e = Engine::new();
    e.add_contest(contest(status, entry_fee)).unwrap();
    for (user, balance) in users {
        e.open_account(*user, 1).unwrap();
        e.adjust(*user, *balance - 100_000, 2).unwrap();
    }
    e
}

fn share(asset: u128, percentage: u32) -> Allocation {
    Allocation { asset, percentage }
}

#[test]
fn join_debits_fee_and_enrols() {
    // Balance 100.00, fee 10.00: the join succeeds and leaves 90.00.
    let mut e = engine_with(ContestStatus::JoiningOpen, 1_000, &[(1, 10_000)]);
    let before = e.transactions(1).len();
    let r = e.join_as(CONTEST, 1, 5001, 150).unwrap();
    assert_eq!(r, JoinContestResponse { participant_id: 5001, virtual_capital: 10_000 });
    assert_eq!(e.wallet(1).unwrap().balance, 9_000);
    let log = e.transactions(1);
    assert_eq!(log.len(), before + 1);
    assert_eq!(log[0].amount, -1_000);
    assert_eq!(log[0].kind, EntryKind::EntryFee);
    assert_eq!(log[0].reference, Some(CONTEST));
    assert_eq!(log[0].timestamp, 150);
    let (p, allocations) = e.participant(CONTEST, 1).unwrap();
    assert_eq!(p.id, 5001);
    assert_eq!(p.joined_at, 150);
    assert_eq!(p.locked_at, None);
    assert!(allocations.is_empty());
}

#[test]
fn join_without_funds_is_payment_required_and_changes_nothing() {
    // Balance 5.00, fee 10.00.
    let mut e = engine_with(ContestStatus::JoiningOpen, 1_000, &[(2, 500)]);
    let entries = e.transactions(2).len();
    let err = e.join_as(CONTEST, 2, 5002, 150).unwrap_err();
    assert_eq!(err.kind(), ErrorKind::PaymentRequired);
    assert_eq!(err.message(), "Insufficient balance");
    assert_eq!(e.wallet(2).unwrap().balance, 500);
    assert_eq!(e.transactions(2).len(), entries);
    assert!(e.participant(CONTEST, 2).is_none());
}

#[test]
fn join_with_exactly_the_fee_succeeds() {
    let mut e = engine_with(ContestStatus::JoiningOpen, 1_000, &[(3, 1_000)]);
    assert!(e.join_as(CONTEST, 3, 1, 150).is_ok());
    assert_eq!(e.wallet(3).unwrap().balance, 0);
}

#[test]
fn join_outside_joining_open_is_conflict() {
    for status in [
        ContestStatus::Upcoming,
        ContestStatus::AllocationLocked,
        ContestStatus::Live,
        ContestStatus::Ended,
        ContestStatus::Settled,
    ] {
        let mut e = engine_with(status, 1_000, &[(1, 10_000)]);
        let err = e.join_as(CONTEST, 1, 1, 150).unwrap_err();
        assert_eq!(err.kind(), ErrorKind::Conflict);
        assert_eq!(err.message(), "Contest is not open for joining");
        assert_eq!(e.wallet(1).unwrap().balance, 10_000);
        assert!(e.participant(CONTEST, 1).is_none());
    }
}

#[test]
fn join_twice_is_conflict_and_debits_once() {
    let mut e = engine_with(ContestStatus::JoiningOpen, 1_000, &[(1, 10_000)]);
    e.join_as(CONTEST, 1, 1, 150).unwrap();
    let err = e.join_as(CONTEST, 1, 2, 151).unwrap_err();
    assert_eq!(err.kind(), ErrorKind::Conflict);
    assert_eq!(err.message(), "Already joined this contest");
    assert_eq!(e.wallet(1).unwrap().balance, 9_000);
}

#[test]
fn join_unknown_contest_or_wallet_is_not_found() {
    let mut e = engine_with(ContestStatus::JoiningOpen, 1_000, &[(1, 10_000)]);
    assert_eq!(e.join_as(901, 1, 1, 150).unwrap_err().kind(), ErrorKind::NotFound);
    assert_eq!(e.join_as(CONTEST, 44, 1, 150).unwrap_err().kind(), ErrorKind::NotFound);
}

#[test]
fn join_draws_a_participant_id() {
    let mut e = engine_with(ContestStatus::JoiningOpen, 1_000, &[(1, 10_000), (2, 10_000)]);
    let a = e.join(CONTEST, 1, 150).unwrap();
    let b = e.join(CONTEST, 2, 150).unwrap();
    assert_eq!(a.virtual_capital, 10_000);
    assert_eq!(e.participant(CONTEST, 1).unwrap().0.id, a.participant_id);
    assert_eq!(e.participant(CONTEST, 2).unwrap().0.id, b.participant_id);
    assert_ne!(a.participant_id, b.participant_id);
    for id in [a.participant_id, b.participant_id] {
        // Version 4, variant 10.
        assert_eq!((id >> 76) & 0xf, 4);
        assert_eq!((id >> 62) & 0x3, 2);
        assert_eq!(id & 0xf000_c000_0000_0000_0000, 0x4000_8000_0000_0000_0000);
    }
}

#[test]
fn lock_succeeds_once_then_conflicts() {
    let mut e = engine_with(ContestStatus::JoiningOpen, 1_000, &[(1, 10_000)]);
    e.join_as(CONTEST, 1, 1, 150).unwrap();
    let first = vec![share(ASSET_A, 6_000), share(ASSET_B, 4_000)];
    assert!(e.lock_allocation(CONTEST, 1, first.clone(), 160).is_ok());
    let (p, stored) = e.participant(CONTEST, 1).unwrap();
    assert_eq!(p.locked_at, Some(160));
    assert_eq!(stored, &first);

    let err = e.lock_allocation(CONTEST, 1, vec![share(ASSET_A, 10_000)], 170).unwrap_err();
    assert_eq!(err.kind(), ErrorKind::Conflict);
    assert_eq!(err.message(), "Allocation already locked");
    let (p, stored) = e.participant(CONTEST, 1).unwrap();
    assert_eq!(p.locked_at, Some(160));
    assert_eq!(stored, &first);
}

#[test]
fn lock_with_bad_sum_is_validation() {
    let mut e = engine_with(ContestStatus::JoiningOpen, 1_000, &[(1, 10_000)]);
    e.join_as(CONTEST, 1, 1, 150).unwrap();
    let err = e
        .lock_allocation(CONTEST, 1, vec![share(ASSET_A, 6_000), share(ASSET_B, 3_900)], 160)
        .unwrap_err();
    assert_eq!(err.kind(), ErrorKind::Validation);
    assert_eq!(err.message(), "Allocation percentages must sum to 100");
    let (p, stored) = e.participant(CONTEST, 1).unwrap();
    assert_eq!(p.locked_at, None);
    assert!(stored.is_empty());
    // No tolerance: one hundredth of a percent off is refused too.
    for off in [9_999u32, 10_001u32] {
        let err = e.lock_allocation(CONTEST, 1, vec![share(ASSET_A, off)], 160).unwrap_err();
        assert_eq!(err.kind(), ErrorKind::Validation);
    }
    let err = e.lock_allocation(CONTEST, 1, vec![], 160).unwrap_err();
    assert_eq!(err.kind(), ErrorKind::Validation);
}

#[test]
fn lock_without_enrolment_is_not_found() {
    let mut e = engine_with(ContestStatus::JoiningOpen, 1_000, &[(1, 10_000)]);
    let err = e.lock_allocation(CONTEST, 1, vec![share(ASSET_A, 10_000)], 160).unwrap_err();
    assert_eq!(err.kind(), ErrorKind::NotFound);
}

#[test]
fn lock_after_start_is_forbidden() {
    let mut e = engine_with(ContestStatus::JoiningOpen, 1_000, &[(1, 10_000)]);
    e.join_as(CONTEST, 1, 1, 150).unwrap();
    assert!(e.run_scheduler(350).is_empty());
    assert_eq!(e.contest(CONTEST).unwrap().status, ContestStatus::Live);
    let err = e.lock_allocation(CONTEST, 1, vec![share(ASSET_A, 10_000)], 351).unwrap_err();
    assert_eq!(err.kind(), ErrorKind::Forbidden);
    assert_eq!(err.message(), "Contest has already started");
    assert_eq!(e.participant(CONTEST, 1).unwrap().0.locked_at, None);
}

#[test]
fn lock_is_still_possible_while_allocation_is_locked_phase() {
    let mut e = engine_with(ContestStatus::JoiningOpen, 1_000, &[(1, 10_000)]);
    e.join_as(CONTEST, 1, 1, 150).unwrap();
    e.run_scheduler(250);
    assert_eq!(e.contest(CONTEST).unwrap().status, ContestStatus::AllocationLocked);
    assert!(e.lock_allocation(CONTEST, 1, vec![share(ASSET_A, 10_000)], 251).is_ok());
}

#[test]
fn scheduler_walks_the_phases_in_order() {
    let mut e = engine_with(ContestStatus::Upcoming, 1_000, &[]);
    let status = |e: &Engine| e.contest(CONTEST).unwrap().status;
    e.run_scheduler(99);
    assert_eq!(status(&e), ContestStatus::Upcoming);
    e.run_scheduler(100);
    assert_eq!(status(&e), ContestStatus::JoiningOpen);
    e.run_scheduler(199);
    assert_eq!(status(&e), ContestStatus::JoiningOpen);
    e.run_scheduler(200);
    assert_eq!(status(&e), ContestStatus::AllocationLocked);
    e.run_scheduler(300);
    assert_eq!(status(&e), ContestStatus::Live);
    assert_eq!(e.run_scheduler(400), vec![CONTEST]);
    assert_eq!(status(&e), ContestStatus::Ended);
    // Ended is left by settlement only, and is reported once.
    assert!(e.run_scheduler(10_000).is_empty());
    assert_eq!(status(&e), ContestStatus::Ended);
}

#[test]
fn scheduler_takes_every_due_transition_in_one_pass() {
    let mut e = engine_with(ContestStatus::Upcoming, 1_000, &[]);
    assert_eq!(e.run_scheduler(1_000), vec![CONTEST]);
    assert_eq!(e.contest(CONTEST).unwrap().status, ContestStatus::Ended);
}

#[test]
fn scheduler_never_moves_backward() {
    let mut e = engine_with(ContestStatus::Live, 1_000, &[]);
    e.run_scheduler(0);
    assert_eq!(e.contest(CONTEST).unwrap().status, ContestStatus::Live);
}

#[test]
fn all_seats_locked_closes_admission_early() {
    let mut e = Engine::new();
    let mut c = contest(ContestStatus::JoiningOpen, 1_000);
    c.schedule.slots = 2;
    e.add_contest(c).unwrap();
    for u in [1u128, 2u128] {
        e.open_account(u, 1).unwrap();
        e.join_as(CONTEST, u, u, 110).unwrap();
    }
    e.lock_allocation(CONTEST, 1, vec![share(ASSET_A, 10_000)], 120).unwrap();
    e.run_scheduler(130);
    assert_eq!(e.contest(CONTEST).unwrap().status, ContestStatus::JoiningOpen);
    e.lock_allocation(CONTEST, 2, vec![share(ASSET_B, 10_000)], 140).unwrap();
    e.run_scheduler(150);
    assert_eq!(e.contest(CONTEST).unwrap().status, ContestStatus::AllocationLocked);
}

#[test]
fn step_takes_one_transition_at_a_time() {
    let s = schedule();
    assert_eq!(ContestStatus::Upcoming.step(&s, 1_000, false), ContestStatus::JoiningOpen);
    assert_eq!(ContestStatus::Live.step(&s, 399, false), ContestStatus::Live);
    assert_eq!(ContestStatus::Ended.step(&s, 1_000, true), ContestStatus::Ended);
    assert_eq!(ContestStatus::Settled.advance(&s, 0, false), ContestStatus::Settled);
}

#[test]
fn status_names_and_ranks() {
    let all = [
        (ContestStatus::Upcoming, "upcoming"),
        (ContestStatus::JoiningOpen, "joining_open"),
        (ContestStatus::AllocationLocked, "allocation_locked"),
        (ContestStatus::Live, "live"),
        (ContestStatus::Ended, "ended"),
        (ContestStatus::Settled, "settled"),
    ];
    for (i, (s, name)) in all.iter().enumerate() {
        assert_eq!(s.name(), *name);
        assert_eq!(s.rank() as usize, i);
        assert_eq!(ContestStatus::from_rank(i as u8), Some(*s));
    }
    assert_eq!(ContestStatus::from_rank(6), None);
}

#[test]
fn add_contest_refuses_duplicates_and_negative_money() {
    let mut e = Engine::new();
    e.add_contest(contest(ContestStatus::Upcoming, 1_000)).unwrap();
    let err = e.add_contest(contest(ContestStatus::Upcoming, 1_000)).unwrap_err();
    assert_eq!(err.kind(), ErrorKind::Conflict);
    let mut c = contest(ContestStatus::Upcoming, -1);
    c.id = 901;
    assert_eq!(e.add_contest(c).unwrap_err().kind(), ErrorKind::Validation);
    assert!(e.contest(901).is_none());
}
