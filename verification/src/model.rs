//! The records that the engine keeps, and the mathematical model of its
//! whole state.

use vstd::prelude::*;
use crate::allocation::{Allocation, is_complete};
use crate::contest::{ContestStatus, Schedule};
use crate::error::ErrorKind;
use crate::contest::{spec_join_guard, spec_lock_guard, spec_seats_full};
use crate::leaderboard::{Standing, ordered, spec_entries, spec_find_entry};
use crate::ledger::{EntryKind, LedgerEntry, LedgerView, fees_collected};
use crate::settlement::spec_payout;
use crate::market::{CandleKey, PriceCandle};
use crate::valuation::spec_portfolio_value;

verus! {

/// A timed competition with an entry fee, a grant of virtual capital and a
/// fixed set of tradable assets. Money is in hundredths of a coin.
#[derive(Clone, Debug, PartialEq, Eq)]
pub struct Contest {
    pub id: u128,
    pub title: String,
    pub track: String,
    pub entry_fee: i64,
    pub virtual_capital: i64,
    pub schedule: Schedule,
    pub status: ContestStatus,
    pub assets: Vec<u128>,
}

/// One user's enrolment in one contest.
#[derive(Clone, Copy, Debug, PartialEq, Eq)]
pub struct Participant {
    pub id: u128,
    pub contest: u128,
    pub user: u128,
    pub joined_at: i64,
    pub locked_at: Option<i64>,
    pub final_rank: Option<u64>,
    pub final_value: Option<i64>,
    pub payout: Option<i64>,
}

/// One line of a leaderboard snapshot.
#[derive(Clone, Copy, Debug, PartialEq, Eq)]
pub struct LeaderboardEntry {
    pub contest: u128,
    pub user: u128,
    pub rank: u64,
    pub portfolio_value: i64,
    pub computed_at: i64,
}

impl Participant {
    /// Whether this is the enrolment of `user` in `contest`.
    pub open spec fn is_for(self, contest: u128, user: u128) -> bool {
        self.contest == contest && self.user == user
    }

    /// The enrolment as it is created by a join.
    pub open spec fn fresh(id: u128, contest: u128, user: u128, now: i64) -> Participant {
        Participant {
            id,
            contest,
            user,
            joined_at: now,
            locked_at: None,
            final_rank: None,
            final_value: None,
            payout: None,
        }
    }
}

/// What a call of settlement did.
#[derive(Clone, Copy, Debug, PartialEq, Eq)]
pub enum Settlement {
    /// The contest was settled by this call, with this prize pool.
    Settled { pool: i64 },
    /// The contest was settled before: this call did nothing.
    AlreadySettled,
}

/// The ledger entry that pays a prize.
pub open spec fn payout_entry(user: u128, amount: i64, contest: u128, now: i64) -> LedgerEntry {
    LedgerEntry {
        wallet: user,
        amount,
        kind: EntryKind::Payout,
        reference: Some(contest),
        timestamp: now,
    }
}

/// Whether an entry is the entry fee that `user` paid for `contest`.
pub open spec fn is_fee_of(e: LedgerEntry, contest: u128, user: u128) -> bool {
    e.kind == EntryKind::EntryFee && e.wallet == user && e.reference == Some(contest)
}

/// Whether the lines of a snapshot carry the ranks 1, 2, 3 and so on.
pub open spec fn ranks_in_order(board: Seq<LeaderboardEntry>) -> bool {
    forall|k: int| 0 <= k < board.len() ==> (#[trigger] board[k]).rank == k + 1
}

/// How many of the enrolments belong to `contest`.
pub open spec fn enrolled(ps: Seq<Participant>, contest: u128) -> nat
    decreases ps.len(),
{
    if ps.len() == 0 {
        0
    } else {
        enrolled(ps.drop_last(), contest) + if ps.last().contest == contest {
            1nat
        } else {
            0nat
        }
    }
}

/// How many of the enrolments belong to `contest` and are locked.
pub open spec fn locked_in(ps: Seq<Participant>, contest: u128) -> nat
    decreases ps.len(),
{
    if ps.len() == 0 {
        0
    } else {
        locked_in(ps.drop_last(), contest) + if ps.last().contest == contest
            && ps.last().locked_at is Some {
            1nat
        } else {
            0nat
        }
    }
}

/// Whether every seat of `contest` is taken and locked: it has seats, at
/// least as many participants, and all of them have locked.
pub open spec fn seats_locked(ps: Seq<Participant>, contest: u128, slots: u32) -> bool {
    spec_seats_full(slots, enrolled(ps, contest), locked_in(ps, contest))
}

/// The mathematical content of the engine: the ledger, the contests with
/// one leaderboard snapshot each, and the participants with one allocation
/// set each.
pub struct EngineView {
    pub ledger: LedgerView,
    pub contests: Seq<Contest>,
    pub boards: Seq<Seq<LeaderboardEntry>>,
    pub participants: Seq<Participant>,
    pub allocations: Seq<Seq<Allocation>>,
}

impl EngineView {
    /// Whether a contest with this id exists.
    pub open spec fn has_contest(self, id: u128) -> bool {
        exists|i: int| 0 <= i < self.contests.len() && #[trigger] self.contests[i].id == id
    }

    /// The position of the contest with this id.
    pub open spec fn contest_at(self, id: u128) -> int {
        choose|i: int| 0 <= i < self.contests.len() && #[trigger] self.contests[i].id == id
    }

    /// The contest with this id.
    pub open spec fn contest(self, id: u128) -> Contest {
        self.contests[self.contest_at(id)]
    }

    /// The latest leaderboard snapshot of the contest with this id.
    pub open spec fn board(self, id: u128) -> Seq<LeaderboardEntry> {
        self.boards[self.contest_at(id)]
    }

    /// Whether `user` takes part in `contest`.
    pub open spec fn is_participant(self, contest: u128, user: u128) -> bool {
        exists|i: int|
            0 <= i < self.participants.len() && #[trigger] self.participants[i].is_for(
                contest,
                user,
            )
    }

    /// The position of the enrolment of `user` in `contest`.
    pub open spec fn participant_at(self, contest: u128, user: u128) -> int {
        choose|i: int|
            0 <= i < self.participants.len() && #[trigger] self.participants[i].is_for(
                contest,
                user,
            )
    }

    /// The enrolment of `user` in `contest`.
    pub open spec fn participant(self, contest: u128, user: u128) -> Participant {
        self.participants[self.participant_at(contest, user)]
    }

    /// The locked allocations of `user` in `contest`; empty before the lock.
    pub open spec fn allocations_of(self, contest: u128, user: u128) -> Seq<Allocation> {
        self.allocations[self.participant_at(contest, user)]
    }

    /// Whether the ledger holds the entry fee of `user` for `contest`.
    pub open spec fn has_paid(self, contest: u128, user: u128) -> bool {
        exists|k: int|
            0 <= k < self.ledger.entries.len() && is_fee_of(
                #[trigger] self.ledger.entries[k],
                contest,
                user,
            )
    }

    /// Entry `k` of the ledger, where it is an entry fee, was paid by a
    /// participant for the contest of the enrolment.
    pub open spec fn fee_is_enrolled(self, k: int) -> bool {
        let e = self.ledger.entries[k];
        e.kind == EntryKind::EntryFee ==> e.reference is Some && self.is_participant(
            e.reference->0,
            e.wallet,
        )
    }

    /// Enrolment `i` has paid its entry fee.
    pub open spec fn enrolment_has_paid(self, i: int) -> bool {
        self.has_paid(self.participants[i].contest, self.participants[i].user)
    }

    /// A participant holds allocations exactly when locked, and then they
    /// sum to 100%.
    pub open spec fn lock_consistent(self, i: int) -> bool {
        if self.participants[i].locked_at is Some {
            is_complete(self.allocations[i])
        } else {
            self.allocations[i].len() == 0
        }
    }

    /// The invariant of the state: ids are distinct, a user takes part in a
    /// contest at most once, every participant belongs to a contest and owns
    /// a wallet, fees and grants are not negative, allocations exist
    /// exactly for locked participants and are complete, every snapshot
    /// carries its ranks in order, and enrolments and entry fees go
    /// together: no fee without its enrolment, no enrolment without its fee.
    pub open spec fn wf(self) -> bool {
        &&& self.boards.len() == self.contests.len()
        &&& forall|c: int| 0 <= c < self.boards.len() ==> ranks_in_order(#[trigger] self.boards[c])
        &&& self.allocations.len() == self.participants.len()
        &&& forall|i: int, j: int|
            0 <= i < j < self.contests.len() ==> self.contests[i].id != self.contests[j].id
        &&& forall|i: int|
            0 <= i < self.contests.len() ==> (#[trigger] self.contests[i]).entry_fee >= 0
                && self.contests[i].virtual_capital >= 0
        &&& forall|i: int, j: int|
            0 <= i < j < self.participants.len() ==> !(#[trigger] self.participants[i]).is_for(
                (#[trigger] self.participants[j]).contest,
                self.participants[j].user,
            )
        &&& forall|i: int|
            0 <= i < self.participants.len() ==> self.has_contest(
                (#[trigger] self.participants[i]).contest,
            ) && self.ledger.has_wallet(self.participants[i].user)
        &&& forall|i: int| 0 <= i < self.participants.len() ==> #[trigger] self.lock_consistent(i)
        &&& forall|k: int| 0 <= k < self.ledger.entries.len() ==> #[trigger] self.fee_is_enrolled(k)
        &&& forall|i: int|
            0 <= i < self.participants.len() ==> #[trigger] self.enrolment_has_paid(i)
    }

    /// The state after a contest is added, with an empty leaderboard.
    pub open spec fn with_contest(self, c: Contest) -> EngineView {
        EngineView {
            contests: self.contests.push(c),
            boards: self.boards.push(Seq::empty()),
            ..self
        }
    }

    /// Whether a contest can be added, and why not.
    pub open spec fn add_contest_outcome(self, c: Contest) -> Result<(), ErrorKind> {
        if c.entry_fee < 0 || c.virtual_capital < 0 {
            Err(ErrorKind::Validation)
        } else if self.has_contest(c.id) {
            Err(ErrorKind::Conflict)
        } else {
            Ok(())
        }
    }

    /// The ledger entry that a join writes.
    pub open spec fn fee_entry(self, contest: u128, user: u128, now: i64) -> LedgerEntry {
        LedgerEntry {
            wallet: user,
            amount: (-self.contest(contest).entry_fee) as i64,
            kind: EntryKind::EntryFee,
            reference: Some(contest),
            timestamp: now,
        }
    }

    /// Whether `user` can join `contest`, and why not: the contest must
    /// exist and admit participants, the user must not take part already,
    /// and the wallet must exist and hold the entry fee.
    pub open spec fn join_outcome(self, contest: u128, user: u128) -> Result<(), ErrorKind> {
        if !self.has_contest(contest) {
            Err(ErrorKind::NotFound)
        } else {
            match spec_join_guard(
                self.contest(contest).status,
                self.is_participant(contest, user),
            ) {
                Err(k) => Err(k),
                Ok(()) => self.ledger.debit_outcome(user, self.contest(contest).entry_fee),
            }
        }
    }

    /// The state after a join: the fee is debited and the enrolment exists,
    /// without allocations.
    pub open spec fn joined(self, contest: u128, user: u128, id: u128, now: i64) -> EngineView {
        EngineView {
            ledger: self.ledger.post(self.fee_entry(contest, user, now)),
            participants: self.participants.push(Participant::fresh(id, contest, user, now)),
            allocations: self.allocations.push(Seq::empty()),
            ..self
        }
    }

    /// Whether `user` can lock `allocations` in `contest`, and why not: the
    /// percentages must sum to exactly 100%, the enrolment must exist and
    /// be unlocked, and the contest must not have started.
    pub open spec fn lock_outcome(self, contest: u128, user: u128, allocations: Seq<Allocation>)
        -> Result<(), ErrorKind> {
        if !is_complete(allocations) {
            Err(ErrorKind::Validation)
        } else if !self.is_participant(contest, user) {
            Err(ErrorKind::NotFound)
        } else {
            spec_lock_guard(
                self.participant(contest, user).locked_at is Some,
                self.contest(contest).status,
            )
        }
    }

    /// The state after a lock: the allocations are stored and the enrolment
    /// carries the instant of the lock.
    pub open spec fn locked(
        self,
        contest: u128,
        user: u128,
        allocations: Seq<Allocation>,
        now: i64,
    ) -> EngineView {
        let i = self.participant_at(contest, user);
        EngineView {
            participants: self.participants.update(
                i,
                Participant { locked_at: Some(now), ..self.participants[i] },
            ),
            allocations: self.allocations.update(i, allocations),
            ..self
        }
    }

    /// Whether the portfolio of `user` in `contest` can be valued, and why
    /// not: the enrolment must exist and be locked, and every price must
    /// be there.
    pub open spec fn value_outcome(
        self,
        contest: u128,
        user: u128,
        prices: Map<CandleKey, PriceCandle>,
        at: i64,
    ) -> Result<i64, ErrorKind> {
        if !self.is_participant(contest, user) {
            Err(ErrorKind::NotFound)
        } else if self.participant(contest, user).locked_at is None {
            Err(ErrorKind::Conflict)
        } else {
            match spec_portfolio_value(
                self.contest(contest).virtual_capital,
                self.allocations_of(contest, user),
                prices,
                self.participant(contest, user).locked_at->0,
                at,
            ) {
                Some(v) => Ok(v),
                None => Err(ErrorKind::Internal),
            }
        }
    }

    /// The standings of the locked participants of `contest` among the
    /// first `n` enrolments, in order of enrolment, each valued as of
    /// `now`. `None` where one of them cannot be valued.
    pub open spec fn standings(
        self,
        contest: u128,
        capital: i64,
        prices: Map<CandleKey, PriceCandle>,
        now: i64,
        n: int,
    ) -> Option<Seq<Standing>>
        decreases n,
    {
        if n <= 0 {
            Some(Seq::empty())
        } else {
            let p = self.participants[n - 1];
            match self.standings(contest, capital, prices, now, n - 1) {
                None => None,
                Some(s) => if p.contest == contest && p.locked_at is Some {
                    match spec_portfolio_value(
                        capital,
                        self.allocations[n - 1],
                        prices,
                        p.locked_at->0,
                        now,
                    ) {
                        Some(v) => Some(
                            s.push(Standing { user: p.user, value: v, locked_at: p.locked_at->0 }),
                        ),
                        None => None,
                    }
                } else {
                    Some(s)
                },
            }
        }
    }

    /// The standings of all locked participants of `contest` as of `now`.
    pub open spec fn all_standings(
        self,
        contest: u128,
        prices: Map<CandleKey, PriceCandle>,
        now: i64,
    ) -> Option<Seq<Standing>> {
        self.standings(
            contest,
            self.contest(contest).virtual_capital,
            prices,
            now,
            self.participants.len() as int,
        )
    }

    /// Whether the leaderboard of `contest` can be recomputed, and why not:
    /// the contest must exist and be in a ranked phase, and every locked
    /// participant must have a value.
    pub open spec fn recompute_outcome(
        self,
        contest: u128,
        prices: Map<CandleKey, PriceCandle>,
        now: i64,
    ) -> Result<(), ErrorKind> {
        if !self.has_contest(contest) {
            Err(ErrorKind::NotFound)
        } else if !self.contest(contest).status.spec_is_ranked() {
            Err(ErrorKind::Conflict)
        } else if self.all_standings(contest, prices, now) is None {
            Err(ErrorKind::Internal)
        } else {
            Ok(())
        }
    }

    /// Whether `board` is the ranking of `contest` as of `now`: the
    /// standings of its locked participants, best first, with ranks
    /// counting from 1.
    pub open spec fn is_ranking(
        self,
        board: Seq<LeaderboardEntry>,
        contest: u128,
        prices: Map<CandleKey, PriceCandle>,
        now: i64,
    ) -> bool {
        exists|ranked: Seq<Standing>|
            {
                &&& ordered(ranked)
                &&& ranked.to_multiset() =~= self.all_standings(
                    contest,
                    prices,
                    now,
                )->0.to_multiset()
                &&& board == #[trigger] spec_entries(ranked, contest, now)
            }
    }

    /// The state after the leaderboard of `contest` was replaced by
    /// `board`, whole.
    pub open spec fn with_board(self, contest: u128, board: Seq<LeaderboardEntry>) -> EngineView {
        EngineView { boards: self.boards.update(self.contest_at(contest), board), ..self }
    }

    /// Contest `i` after one pass of the scheduler at `now`.
    pub open spec fn scheduled_contest(self, i: int, now: i64) -> Contest {
        let c = self.contests[i];
        Contest {
            status: c.status.spec_advance(
                c.schedule,
                now,
                seats_locked(self.participants, c.id, c.schedule.slots),
            ),
            ..c
        }
    }

    /// The state after one pass of the scheduler at `now`: every contest
    /// took the transitions that were due, and nothing else changed.
    pub open spec fn scheduled(self, now: i64) -> EngineView {
        EngineView {
            contests: Seq::new(self.contests.len(), |i: int| self.scheduled_contest(i, now)),
            ..self
        }
    }

    /// Whether the pass at `now` takes contest `i` to `Ended`.
    pub open spec fn ends_at(self, i: int, now: i64) -> bool {
        self.contests[i].status != ContestStatus::Ended && self.scheduled_contest(i, now).status
            == ContestStatus::Ended
    }

    /// The contests among the first `n` that the pass at `now` takes to
    /// `Ended`: those that settlement is now due for.
    pub open spec fn newly_ended(self, now: i64, n: int) -> Seq<u128>
        decreases n,
    {
        if n <= 0 {
            Seq::empty()
        } else if self.ends_at(n - 1, now) {
            self.newly_ended(now, n - 1).push(self.contests[n - 1].id)
        } else {
            self.newly_ended(now, n - 1)
        }
    }

    /// The prize pool of `contest`: the entry fees that the ledger shows
    /// as collected for it.
    pub open spec fn pool(self, contest: u128) -> int {
        fees_collected(self.ledger.entries, contest)
    }

    /// The line of enrolment `i` in the final snapshot of `contest`, if
    /// the enrolment belongs to the contest and is ranked.
    pub open spec fn final_standing(self, contest: u128, i: int) -> Option<LeaderboardEntry> {
        if self.participants[i].contest == contest {
            spec_find_entry(self.board(contest), self.participants[i].user)
        } else {
            None
        }
    }

    /// What settlement pays enrolment `i`: the share of the pool that the
    /// curve gives its final rank, if it gives it any.
    pub open spec fn award(self, contest: u128, fractions: Seq<u32>, i: int) -> Option<i64> {
        match self.final_standing(contest, i) {
            Some(e) => match spec_payout(self.pool(contest) as u64, fractions, e.rank) {
                Some(a) => Some(a as i64),
                None => None,
            },
            None => None,
        }
    }

    /// What settlement pays enrolment `i`, as a number: nothing where it
    /// pays no award.
    pub open spec fn awarded(self, contest: u128, fractions: Seq<u32>, i: int) -> int {
        match self.award(contest, fractions, i) {
            Some(a) => a as int,
            None => 0,
        }
    }

    /// What settlement pays the first `n` enrolments together.
    pub open spec fn awarded_total(self, contest: u128, fractions: Seq<u32>, n: int) -> int
        decreases n,
    {
        if n <= 0 {
            0
        } else {
            self.awarded_total(contest, fractions, n - 1) + self.awarded(contest, fractions, n - 1)
        }
    }

    /// The ledger after the awards of the first `n` enrolments were
    /// credited, in order; `None` where one of the credits fails.
    pub open spec fn paid_ledger(
        self,
        contest: u128,
        fractions: Seq<u32>,
        now: i64,
        n: int,
    ) -> Option<LedgerView>
        decreases n,
    {
        if n <= 0 {
            Some(self.ledger)
        } else {
            match self.paid_ledger(contest, fractions, now, n - 1) {
                None => None,
                Some(l) => match self.award(contest, fractions, n - 1) {
                    Some(a) => if l.credit_outcome(self.participants[n - 1].user, a) is Ok {
                        Some(l.post(payout_entry(self.participants[n - 1].user, a, contest, now)))
                    } else {
                        None
                    },
                    None => Some(l),
                },
            }
        }
    }

    /// Enrolment `i` after settlement: a ranked participant of the contest
    /// carries the final rank and value and the payout; any other is as
    /// before.
    pub open spec fn settled_participant(self, contest: u128, fractions: Seq<u32>, i: int)
        -> Participant {
        match self.final_standing(contest, i) {
            Some(e) => Participant {
                final_rank: Some(e.rank),
                final_value: Some(e.portfolio_value),
                payout: self.award(contest, fractions, i),
                ..self.participants[i]
            },
            None => self.participants[i],
        }
    }

    /// What settlement of `contest` does, and why it is refused: a settled
    /// contest is left alone, one that has not ended is refused with
    /// `Conflict`, and an ended one is settled unless the pool or a credit
    /// leaves the range of amounts.
    pub open spec fn settle_outcome(self, contest: u128, fractions: Seq<u32>, now: i64) -> Result<
        Settlement,
        ErrorKind,
    > {
        if !self.has_contest(contest) {
            Err(ErrorKind::NotFound)
        } else if self.contest(contest).status == ContestStatus::Settled {
            Ok(Settlement::AlreadySettled)
        } else if self.contest(contest).status != ContestStatus::Ended {
            Err(ErrorKind::Conflict)
        } else if !(0 <= self.pool(contest) <= i64::MAX) {
            Err(ErrorKind::Internal)
        } else if self.paid_ledger(contest, fractions, now, self.participants.len() as int)
            is None {
            Err(ErrorKind::Internal)
        } else {
            Ok(Settlement::Settled { pool: self.pool(contest) as i64 })
        }
    }

    /// The state after `contest` was settled: every award is credited,
    /// every ranked participant carries the final rank, value and payout,
    /// and the contest is `Settled`.
    pub open spec fn settled(self, contest: u128, fractions: Seq<u32>, now: i64) -> EngineView {
        EngineView {
            ledger: self.paid_ledger(contest, fractions, now, self.participants.len() as int)->0,
            contests: self.contests.update(
                self.contest_at(contest),
                Contest { status: ContestStatus::Settled, ..self.contest(contest) },
            ),
            participants: Seq::new(
                self.participants.len(),
                |i: int| self.settled_participant(contest, fractions, i),
            ),
            ..self
        }
    }

    /// What a participant is told of a contest: its phase and, where the
    /// latest snapshot ranks the user, the rank and value there.
    pub open spec fn status_of(self, contest: u128, user: u128) -> (ContestStatus, Option<
        LeaderboardEntry,
    >) {
        (self.contest(contest).status, spec_find_entry(self.board(contest), user))
    }

    /// The final result of `user` in `contest`, or why there is none: the
    /// enrolment must exist and carry a final rank and value.
    pub open spec fn results_outcome(self, contest: u128, user: u128) -> Result<
        (u64, i64, Option<i64>),
        ErrorKind,
    > {
        if !self.is_participant(contest, user) {
            Err(ErrorKind::NotFound)
        } else {
            let p = self.participant(contest, user);
            match (p.final_rank, p.final_value) {
                (Some(r), Some(v)) => Ok((r, v, p.payout)),
                _ => Err(ErrorKind::Conflict),
            }
        }
    }

    /// Fees and enrolments stay together through a change that keeps the
    /// enrolments and the entries there were, and adds none of one without
    /// the other.
    pub proof fn lemma_keeps_payments(self, after: EngineView)
        requires
            self.wf(),
            self.participants.len() <= after.participants.len(),
            forall|i: int|
                0 <= i < self.participants.len() ==> (#[trigger] after.participants[i]).contest
                    == self.participants[i].contest && after.participants[i].user
                    == self.participants[i].user,
            self.ledger.entries.len() <= after.ledger.entries.len(),
            forall|k: int|
                0 <= k < self.ledger.entries.len() ==> #[trigger] after.ledger.entries[k]
                    == self.ledger.entries[k],
            forall|k: int|
                self.ledger.entries.len() <= k < after.ledger.entries.len()
                    ==> #[trigger] after.fee_is_enrolled(k),
            forall|i: int|
                self.participants.len() <= i < after.participants.len()
                    ==> #[trigger] after.enrolment_has_paid(i),
        ensures
            forall|k: int|
                0 <= k < after.ledger.entries.len() ==> #[trigger] after.fee_is_enrolled(k),
            forall|i: int|
                0 <= i < after.participants.len() ==> #[trigger] after.enrolment_has_paid(i),
    {
        assert forall|k: int| 0 <= k < after.ledger.entries.len() implies #[trigger] after.fee_is_enrolled(
            k,
        ) by {
            if k < self.ledger.entries.len() {
                assert(self.fee_is_enrolled(k));
                let e = self.ledger.entries[k];
                if e.kind == EntryKind::EntryFee {
                    let w = self.participant_at(e.reference->0, e.wallet);
                    assert(after.participants[w].is_for(e.reference->0, e.wallet));
                }
            }
        }
        assert forall|i: int| 0 <= i < after.participants.len() implies #[trigger] after.enrolment_has_paid(
            i,
        ) by {
            if i < self.participants.len() {
                assert(self.enrolment_has_paid(i));
                let c = self.participants[i].contest;
                let u = self.participants[i].user;
                let k = choose|k: int|
                    0 <= k < self.ledger.entries.len() && is_fee_of(
                        #[trigger] self.ledger.entries[k],
                        c,
                        u,
                    );
                assert(is_fee_of(after.ledger.entries[k], c, u));
            }
        }
    }

    /// A change of the ledger that adds one entry, which is no entry fee,
    /// and keeps every wallet keeps the state well formed.
    pub proof fn lemma_ledger_step(self, ledger: LedgerView, e: LedgerEntry)
        requires
            self.wf(),
            forall|o: u128| self.ledger.has_wallet(o) ==> ledger.has_wallet(o),
            ledger.entries == self.ledger.entries.push(e),
            e.kind != EntryKind::EntryFee,
        ensures
            (EngineView { ledger, ..self }).wf(),
    {
        let after = EngineView { ledger, ..self };
        assert forall|i: int|
            0 <= i < after.participants.len() implies #[trigger] after.lock_consistent(i) by {
            assert(self.lock_consistent(i));
        }
        self.lemma_keeps_payments(after);
    }

    /// In a well-formed state a user has one enrolment per contest only.
    pub proof fn lemma_participant_at(self, i: int)
        requires
            self.wf(),
            0 <= i < self.participants.len(),
        ensures
            self.is_participant(self.participants[i].contest, self.participants[i].user),
            self.participant_at(self.participants[i].contest, self.participants[i].user) == i,
    {
        let c = self.participants[i].contest;
        let u = self.participants[i].user;
        assert(self.participants[i].is_for(c, u));
        let p = self.participant_at(c, u);
        if p < i {
            assert(!self.participants[p].is_for(
                self.participants[i].contest,
                self.participants[i].user,
            ));
        } else if i < p {
            assert(!self.participants[i].is_for(
                self.participants[p].contest,
                self.participants[p].user,
            ));
        }
    }
}

} // verus!
