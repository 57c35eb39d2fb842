//! The engine: every operation on contests, participants and money, each
//! applied to the whole state as one unit.

use vstd::prelude::*;
use crate::allocation::{Allocation, text_bad_sum, validate_allocations};
use crate::conservation::{law_awards_at_most_pool, law_settlement_writes_the_awards};
use crate::contest::{
    ContestStatus, join_guard, lock_guard, seats_full, text_already_joined, text_already_locked,
    text_already_started, text_not_open,
};
use crate::error::{AppError, ErrorKind, outcome};
use crate::ids::{fresh_id, is_random_id};
use crate::leaderboard::{Standing, find_entry, rank_standings, to_entries, top};
use crate::ledger::{
    EntryKind, INITIAL_BALANCE, LedgerEntry, WalletLedger, ledger_sum, newest_first,
    text_insufficient,
};
use crate::market::{CandleKey, PriceCandle, PriceStore};
use crate::model::{
    Contest, EngineView, LeaderboardEntry, Participant, Settlement, enrolled, is_fee_of,
    locked_in, seats_locked,
};
use crate::settlement::PayoutCurve;
use crate::valuation::portfolio_value;

verus! {

/// The whole state of the contest and ledger engine.
#[derive(Debug)]
pub struct Engine {
    ledger: WalletLedger,
    contests: Vec<Contest>,
    boards: Vec<Vec<LeaderboardEntry>>,
    participants: Vec<Participant>,
    allocations: Vec<Vec<Allocation>>,
}

/// How many ledger entries a listing shows.
pub const TRANSACTION_LIMIT: usize = 50;

/// How many lines of a leaderboard a listing shows.
pub const LEADERBOARD_LIMIT: usize = 100;

/// Text sent when results are asked for before settlement.
pub open spec fn text_not_settled() -> Seq<char> {
    "Contest not yet settled"@
}

/// The name of the virtual currency.
pub open spec fn text_currency() -> Seq<char> {
    "VCOIN"@
}

/// What a participant is told of a running contest.
#[derive(Clone, Copy, Debug, PartialEq, Eq)]
pub struct ContestStatusResponse {
    pub status: ContestStatus,
    pub current_rank: Option<u64>,
    pub portfolio_value: Option<i64>,
}

/// What a participant is told of a settled contest.
#[derive(Clone, Copy, Debug, PartialEq, Eq)]
pub struct ContestResultsResponse {
    pub rank: u64,
    pub final_value: i64,
    pub payout: Option<i64>,
}

/// What a user is told of the wallet.
#[derive(Clone, Debug, PartialEq, Eq)]
pub struct WalletResponse {
    pub balance: i64,
    pub currency: String,
}

/// What a successful join answers.
#[derive(Clone, Copy, Debug, PartialEq, Eq)]
pub struct JoinContestResponse {
    pub participant_id: u128,
    pub virtual_capital: i64,
}

impl View for Engine {
    type V = EngineView;

    closed spec fn view(&self) -> EngineView {
        EngineView {
            ledger: self.ledger@,
            contests: self.contests@,
            boards: Seq::new(self.boards@.len(), |i: int| self.boards@[i]@),
            participants: self.participants@,
            allocations: Seq::new(self.allocations@.len(), |i: int| self.allocations@[i]@),
        }
    }
}

impl Engine {
    /// The invariant of the ledger inside the engine.
    pub closed spec fn ledger_wf(&self) -> bool {
        self.ledger.wf()
    }

    /// The invariant of the engine: that of its ledger and that of its
    /// state.
    pub open spec fn wf(&self) -> bool {
        self.ledger_wf() && self@.wf()
    }

    /// No balance is ever negative, and each equals the sum of the ledger
    /// entries of its wallet.
    pub proof fn lemma_balances(&self, owner: u128)
        requires
            self.wf(),
            self@.ledger.has_wallet(owner),
        ensures
            self@.ledger.balances[owner] >= 0,
            self@.ledger.balances[owner] == ledger_sum(self@.ledger.entries, owner),
    {
        self.ledger.lemma_balance_is_sum(owner);
    }

    /// An engine without wallets, contests or participants: every part of
    /// its state is empty.
    pub fn new() -> (e: Engine)
        ensures
            e.wf(),
            e@.ledger.balances == Map::<u128, i64>::empty(),
            e@.ledger.entries == Seq::<LedgerEntry>::empty(),
            e@.contests == Seq::<Contest>::empty(),
            e@.boards == Seq::<Seq<LeaderboardEntry>>::empty(),
            e@.participants == Seq::<Participant>::empty(),
            e@.allocations == Seq::<Seq<Allocation>>::empty(),
    {
        Engine {
            ledger: WalletLedger::new(),
            contests: Vec::new(),
            boards: Vec::new(),
            participants: Vec::new(),
            allocations: Vec::new(),
        }
    }

    /// The position of the contest with this id.
    fn find_contest(&self, id: u128) -> (r: Option<usize>)
        requires
            self.wf(),
        ensures
            match r {
                Some(i) => i < self@.contests.len() && self@.has_contest(id) && self@.contest_at(
                    id,
                ) == i,
                None => !self@.has_contest(id),
            },
    {
        let mut i: usize = 0;
        while i < self.contests.len()
            invariant
                self.wf(),
                i <= self.contests@.len(),
                forall|j: int| 0 <= j < i ==> self.contests@[j].id != id,
            decreases self.contests@.len() - i,
        {
            if self.contests[i].id == id {
                return Some(i);
            }
            i += 1;
        }
        None
    }

    /// The position of the enrolment of `user` in `contest`.
    fn find_participant(&self, contest: u128, user: u128) -> (r: Option<usize>)
        requires
            self.wf(),
        ensures
            match r {
                Some(i) => i < self@.participants.len() && self@.is_participant(contest, user)
                    && self@.participant_at(contest, user) == i,
                None => !self@.is_participant(contest, user),
            },
    {
        let mut i: usize = 0;
        while i < self.participants.len()
            invariant
                self.wf(),
                i <= self.participants@.len(),
                forall|j: int| 0 <= j < i ==> !self.participants@[j].is_for(contest, user),
            decreases self.participants@.len() - i,
        {
            if self.participants[i].contest == contest && self.participants[i].user == user {
                proof {
                    self@.lemma_participant_at(i as int);
                }
                return Some(i);
            }
            i += 1;
        }
        None
    }

    /// Provisions a user: opens the wallet with the initial grant, recorded
    /// as the first ledger entry. Refused with `Conflict` where the user
    /// already has a wallet; a refusal changes nothing.
    pub fn open_account(&mut self, user: u128, now: i64) -> (res: Result<(), AppError>)
        requires
            old(self).wf(),
        ensures
            final(self).wf(),
            outcome(res) == old(self)@.ledger.open_outcome(user, INITIAL_BALANCE),
            res is Ok ==> final(self)@ == (EngineView {
                ledger: old(self)@.ledger.open(user, INITIAL_BALANCE, now),
                ..old(self)@
            }),
            res is Err ==> *final(self) == *old(self),
    {
        let ghost before = self@;
        let res = self.ledger.open_wallet(user, INITIAL_BALANCE, now);
        proof {
            if res is Ok {
                before.lemma_ledger_step(
                    self@.ledger,
                    LedgerEntry {
                        wallet: user,
                        amount: INITIAL_BALANCE,
                        kind: EntryKind::Initial,
                        reference: None,
                        timestamp: now,
                    },
                );
            }
        }
        res
    }

    /// Adds a contest, with an empty leaderboard. Refused with `Validation`
    /// for a negative fee or grant and with `Conflict` where the id is
    /// taken; a refusal changes nothing.
    pub fn add_contest(&mut self, c: Contest) -> (res: Result<(), AppError>)
        requires
            old(self).wf(),
        ensures
            final(self).wf(),
            outcome(res) == old(self)@.add_contest_outcome(c),
            res is Ok ==> final(self)@ == old(self)@.with_contest(c),
            res is Err ==> *final(self) == *old(self),
    {
        if c.entry_fee < 0 || c.virtual_capital < 0 {
            return Err(AppError::Validation("Fee and capital must not be negative".to_owned()));
        }
        if self.find_contest(c.id).is_some() {
            return Err(AppError::Conflict("Contest already exists".to_owned()));
        }
        let ghost before = self@;
        self.contests.push(c);
        self.boards.push(Vec::new());
        proof {
            let after = self@;
            assert(after.boards =~= before.boards.push(Seq::empty()));
            before.lemma_keeps_payments(after);
            assert forall|i: int| 0 <= i < after.participants.len() implies after.has_contest(
                (#[trigger] after.participants[i]).contest,
            ) by {
                let cid = before.participants[i].contest;
                let p = before.contest_at(cid);
                assert(after.contests[p].id == cid);
            }
            assert forall|i: int|
                0 <= i < after.participants.len() implies #[trigger] after.lock_consistent(i) by {
                assert(before.lock_consistent(i));
            }
        }
        Ok(())
    }

    /// Enrols `user` in `contest` under the given participant id: debits
    /// the entry fee and creates the enrolment, both or neither. Refused
    /// with `NotFound` where the contest or the wallet is missing, with
    /// `Conflict` where the contest is not open for joining or the user
    /// takes part already, and with `PaymentRequired` where the balance is
    /// below the fee. A refusal changes nothing.
    pub fn join_as(&mut self, contest: u128, user: u128, participant_id: u128, now: i64) -> (res:
        Result<JoinContestResponse, AppError>)
        requires
            old(self).wf(),
        ensures
            final(self).wf(),
            match res {
                Ok(r) => {
                    &&& old(self)@.join_outcome(contest, user) == Ok::<(), ErrorKind>(())
                    &&& r.participant_id == participant_id
                    &&& r.virtual_capital == old(self)@.contest(contest).virtual_capital
                    &&& final(self)@ == old(self)@.joined(contest, user, participant_id, now)
                },
                Err(e) => {
                    &&& old(self)@.join_outcome(contest, user) == Err::<(), ErrorKind>(
                        e.spec_kind(),
                    )
                    &&& *final(self) == *old(self)
                    &&& e.spec_kind() == ErrorKind::PaymentRequired ==> e.spec_message()
                        == text_insufficient()
                    &&& e.spec_kind() == ErrorKind::Conflict ==> e.spec_message() == if old(
                        self,
                    )@.contest(contest).status.spec_admits_join() {
                        text_already_joined()
                    } else {
                        text_not_open()
                    }
                },
            },
    {
        let ci = match self.find_contest(contest) {
            Some(i) => i,
            None => { return Err(AppError::NotFound); },
        };
        let fee = self.contests[ci].entry_fee;
        let capital = self.contests[ci].virtual_capital;
        let joined = self.find_participant(contest, user).is_some();
        match join_guard(self.contests[ci].status, joined) {
            Ok(()) => {},
            Err(e) => { return Err(e); },
        }
        let ghost before = self@;
        match self.ledger.debit(user, fee, EntryKind::EntryFee, Some(contest), now) {
            Ok(()) => {},
            Err(e) => { return Err(e); },
        }
        self.participants.push(
            Participant {
                id: participant_id,
                contest,
                user,
                joined_at: now,
                locked_at: None,
                final_rank: None,
                final_value: None,
                payout: None,
            },
        );
        self.allocations.push(Vec::new());
        proof {
            let after = self@;
            let n = before.participants.len() as int;
            assert(after.allocations =~= before.allocations.push(Seq::empty()));
            let paid = before.ledger.entries.len() as int;
            assert(after.participants[n].is_for(contest, user));
            assert(is_fee_of(after.ledger.entries[paid], contest, user));
            before.lemma_keeps_payments(after);
            assert forall|i: int|
                0 <= i < after.participants.len() implies #[trigger] after.lock_consistent(i) by {
                if i < n {
                    assert(before.lock_consistent(i));
                }
            }
            assert forall|i: int, j: int|
                0 <= i < j < after.participants.len() implies !(
            #[trigger] after.participants[i]).is_for(
                (#[trigger] after.participants[j]).contest,
                after.participants[j].user,
            ) by {
                if j < n {
                    assert(!before.participants[i].is_for(
                        before.participants[j].contest,
                        before.participants[j].user,
                    ));
                }
            }
        }
        Ok(JoinContestResponse { participant_id, virtual_capital: capital })
    }

    /// Enrols `user` in `contest` under a fresh random participant id.
    /// Whatever id is drawn, the outcome is that of `join_as` with it, and
    /// the id has the shape of a random one. Drawing the id fails, with a
    /// panic, only where the system has no random bytes to give.
    pub fn join(&mut self, contest: u128, user: u128, now: i64) -> (res: Result<
        JoinContestResponse,
        AppError,
    >)
        requires
            old(self).wf(),
        ensures
            final(self).wf(),
            match res {
                Ok(r) => {
                    &&& old(self)@.join_outcome(contest, user) == Ok::<(), ErrorKind>(())
                    &&& is_random_id(r.participant_id)
                    &&& r.virtual_capital == old(self)@.contest(contest).virtual_capital
                    &&& final(self)@ == old(self)@.joined(contest, user, r.participant_id, now)
                },
                Err(e) => {
                    &&& old(self)@.join_outcome(contest, user) == Err::<(), ErrorKind>(
                        e.spec_kind(),
                    )
                    &&& *final(self) == *old(self)
                },
            },
    {
        let id = fresh_id();
        self.join_as(contest, user, id, now)
    }

    /// Locks the allocations of `user` in `contest`: stores them and marks
    /// the enrolment as locked at `now`, both or neither. Refused with
    /// `Validation` where the percentages do not sum to exactly 100%, with
    /// `NotFound` where the user does not take part, with `Conflict` where
    /// the enrolment is locked already, and with `Forbidden` once the
    /// contest has started. A refusal changes nothing.
    pub fn lock_allocation(
        &mut self,
        contest: u128,
        user: u128,
        allocations: Vec<Allocation>,
        now: i64,
    ) -> (res: Result<(), AppError>)
        requires
            old(self).wf(),
        ensures
            final(self).wf(),
            outcome(res) == old(self)@.lock_outcome(contest, user, allocations@),
            res is Ok ==> final(self)@ == old(self)@.locked(contest, user, allocations@, now),
            res is Err ==> *final(self) == *old(self),
            res matches Err(e) ==> e.spec_message() == match e.spec_kind() {
                ErrorKind::Validation => text_bad_sum(),
                ErrorKind::Conflict => text_already_locked(),
                ErrorKind::Forbidden => text_already_started(),
                _ => e.spec_message(),
            },
    {
        match validate_allocations(&allocations) {
            Ok(()) => {},
            Err(e) => { return Err(e); },
        }
        let pi = match self.find_participant(contest, user) {
            Some(i) => i,
            None => { return Err(AppError::NotFound); },
        };
        let ci = match self.find_contest(contest) {
            Some(i) => i,
            None => { return Err(AppError::Internal); },
        };
        match lock_guard(self.participants[pi].locked_at.is_some(), self.contests[ci].status) {
            Ok(()) => {},
            Err(e) => { return Err(e); },
        }
        let ghost before = self@;
        let ghost set = allocations@;
        self.participants[pi].locked_at = Some(now);
        self.allocations.set(pi, allocations);
        proof {
            let after = self@;
            assert(after.allocations =~= before.allocations.update(pi as int, set));
            assert(after.participants =~= before.participants.update(
                pi as int,
                Participant { locked_at: Some(now), ..before.participants[pi as int] },
            ));
            before.lemma_keeps_payments(after);
            assert forall|i: int|
                0 <= i < after.participants.len() implies #[trigger] after.lock_consistent(i) by {
                assert(before.lock_consistent(i));
            }
            assert forall|i: int, j: int|
                0 <= i < j < after.participants.len() implies !(
                #[trigger] after.participants[i]).is_for(
                (#[trigger] after.participants[j]).contest,
                after.participants[j].user,
            ) by {
                assert(!before.participants[i].is_for(
                    before.participants[j].contest,
                    before.participants[j].user,
                ));
            }
        }
        Ok(())
    }

    /// The value of the portfolio of `user` in `contest` as of `at`.
    /// Refused with `NotFound` where the user does not take part, with
    /// `Conflict` before the lock, and with `Internal` where price data is
    /// missing. Nothing is stored.
    pub fn value(&self, contest: u128, user: u128, prices: &PriceStore, at: i64) -> (res: Result<
        i64,
        AppError,
    >)
        requires
            self.wf(),
            prices.wf(),
        ensures
            outcome(res) == self@.value_outcome(contest, user, prices@, at),
    {
        let pi = match self.find_participant(contest, user) {
            Some(i) => i,
            None => { return Err(AppError::NotFound); },
        };
        let ci = match self.find_contest(contest) {
            Some(i) => i,
            None => { return Err(AppError::Internal); },
        };
        let locked_at = match self.participants[pi].locked_at {
            Some(t) => t,
            None => { return Err(AppError::Conflict("Allocation not locked".to_owned())); },
        };
        portfolio_value(
            self.contests[ci].virtual_capital,
            &self.allocations[pi],
            prices,
            locked_at,
            at,
        )
    }

    /// Values every locked participant of `contest` as of `now`.
    fn collect_standings(&self, contest: u128, capital: i64, prices: &PriceStore, now: i64) -> (res:
        Option<Vec<Standing>>)
        requires
            self.wf(),
            prices.wf(),
        ensures
            match res {
                Some(v) => self@.standings(
                    contest,
                    capital,
                    prices@,
                    now,
                    self@.participants.len() as int,
                ) == Some(v@),
                None => self@.standings(
                    contest,
                    capital,
                    prices@,
                    now,
                    self@.participants.len() as int,
                ) is None,
            },
    {
        let mut out: Vec<Standing> = Vec::new();
        let mut i: usize = 0;
        let n = self.participants.len();
        while i < n
            invariant
                self.wf(),
                prices.wf(),
                n == self@.participants.len(),
                i <= n,
                self@.standings(contest, capital, prices@, now, i as int) == Some(out@),
            decreases n - i,
        {
            let p = self.participants[i];
            proof {
                if self@.standings(contest, capital, prices@, now, i + 1) is None {
                    self.lemma_standings_fail(contest, capital, prices@, now, i + 1, n as int);
                }
            }
            if p.contest == contest {
                match p.locked_at {
                    Some(t) => {
                        match portfolio_value(capital, &self.allocations[i], prices, t, now) {
                            Ok(v) => {
                                out.push(Standing { user: p.user, value: v, locked_at: t });
                            },
                            Err(_) => { return None; },
                        }
                    },
                    None => {},
                }
            }
            i += 1;
        }
        Some(out)
    }

    /// Standings that fail at some length fail at every greater one.
    proof fn lemma_standings_fail(
        &self,
        contest: u128,
        capital: i64,
        prices: Map<CandleKey, PriceCandle>,
        now: i64,
        i: int,
        j: int,
    )
        requires
            0 <= i <= j,
            self@.standings(contest, capital, prices, now, i) is None,
        ensures
            self@.standings(contest, capital, prices, now, j) is None,
        decreases j - i,
    {
        if i < j {
            self.lemma_standings_fail(contest, capital, prices, now, i, j - 1);
        }
    }

    /// One pass of the leaderboard over `contest`: values every locked
    /// participant as of `now`, ranks them best first (on equal values the
    /// earlier lock wins) and replaces the snapshot whole. Refused with
    /// `NotFound` where the contest is missing, with `Conflict` outside the
    /// ranked phases, and with `Internal` where a participant cannot be
    /// valued; a refusal leaves the previous snapshot as it is. Returns the
    /// number of ranked participants.
    pub fn recompute_leaderboard(&mut self, contest: u128, prices: &PriceStore, now: i64) -> (res:
        Result<usize, AppError>)
        requires
            old(self).wf(),
            prices.wf(),
        ensures
            final(self).wf(),
            match res {
                Ok(n) => {
                    &&& old(self)@.recompute_outcome(contest, prices@, now) == Ok::<(), ErrorKind>(
                        (),
                    )
                    &&& final(self)@ == old(self)@.with_board(contest, final(self)@.board(contest))
                    &&& old(self)@.is_ranking(final(self)@.board(contest), contest, prices@, now)
                    &&& n == final(self)@.board(contest).len()
                },
                Err(e) => {
                    &&& old(self)@.recompute_outcome(contest, prices@, now) == Err::<
                        (),
                        ErrorKind,
                    >(e.spec_kind())
                    &&& *final(self) == *old(self)
                },
            },
    {
        let ci = match self.find_contest(contest) {
            Some(i) => i,
            None => { return Err(AppError::NotFound); },
        };
        if !self.contests[ci].status.is_ranked() {
            return Err(AppError::Conflict("Contest is not ranked in this phase".to_owned()));
        }
        let standings = match self.collect_standings(
            contest,
            self.contests[ci].virtual_capital,
            prices,
            now,
        ) {
            Some(s) => s,
            None => { return Err(AppError::Internal); },
        };
        let ranked = rank_standings(&standings);
        let board = to_entries(&ranked, contest, now);
        let n = board.len();
        let ghost before = self@;
        let ghost lines = board@;
        self.boards.set(ci, board);
        proof {
            let after = self@;
            assert(after.boards =~= before.boards.update(ci as int, lines));
            before.lemma_keeps_payments(after);
            assert forall|i: int|
                0 <= i < after.participants.len() implies #[trigger] after.lock_consistent(i) by {
                assert(before.lock_consistent(i));
            }
        }
        Ok(n)
    }

    /// The first `k` lines of the latest snapshot of `contest`; the
    /// snapshot is never computed on demand.
    pub fn leaderboard(&self, contest: u128, k: usize) -> (res: Result<
        Vec<LeaderboardEntry>,
        AppError,
    >)
        requires
            self.wf(),
        ensures
            match res {
                Ok(lines) => self@.has_contest(contest) && lines@ == self@.board(contest).take(
                    if k <= self@.board(contest).len() {
                        k as int
                    } else {
                        self@.board(contest).len() as int
                    },
                ),
                Err(e) => e.spec_kind() == ErrorKind::NotFound && !self@.has_contest(contest),
            },
    {
        match self.find_contest(contest) {
            Some(ci) => Ok(top(&self.boards[ci], k)),
            None => Err(AppError::NotFound),
        }
    }

    /// Whether every seat of `contest` is taken and locked.
    fn all_seats_locked(&self, contest: u128, slots: u32) -> (b: bool)
        ensures
            b == seats_locked(self@.participants, contest, slots),
    {
        let mut seats: usize = 0;
        let mut locked: usize = 0;
        let mut i: usize = 0;
        let n = self.participants.len();
        while i < n
            invariant
                n == self.participants@.len(),
                i <= n,
                locked <= seats <= i,
                seats == enrolled(self.participants@.take(i as int), contest),
                locked == locked_in(self.participants@.take(i as int), contest),
            decreases n - i,
        {
            proof {
                assert(self.participants@.take(i + 1).drop_last() =~= self.participants@.take(
                    i as int,
                ));
            }
            if self.participants[i].contest == contest {
                seats += 1;
                if self.participants[i].locked_at.is_some() {
                    locked += 1;
                }
            }
            i += 1;
        }
        proof {
            assert(self.participants@.take(n as int) =~= self.participants@);
        }
        seats_full(slots, seats as u64, locked as u64)
    }

    /// One pass of the scheduler at `now`: every contest takes the
    /// transitions of the clock that are due; no phase moves backward and
    /// none is settled here. Returns the contests that the pass took to
    /// `Ended`, for which settlement is now due.
    pub fn run_scheduler(&mut self, now: i64) -> (ended: Vec<u128>)
        requires
            old(self).wf(),
        ensures
            final(self).wf(),
            final(self)@ == old(self)@.scheduled(now),
            ended@ == old(self)@.newly_ended(now, old(self)@.contests.len() as int),
            forall|i: int|
                0 <= i < old(self)@.contests.len() ==> old(self)@.contests[i].status.spec_rank()
                    <= (#[trigger] final(self)@.contests[i]).status.spec_rank(),
    {
        let mut ended: Vec<u128> = Vec::new();
        let mut i: usize = 0;
        let n = self.contests.len();
        let ghost before = self@;
        while i < n
            invariant
                n == before.contests.len(),
                i <= n,
                before == old(self)@,
                before.wf(),
                self.ledger_wf(),
                self@.ledger == before.ledger,
                self@.boards == before.boards,
                self@.participants == before.participants,
                self@.allocations == before.allocations,
                self@.contests.len() == n,
                forall|k: int| 0 <= k < i ==> self@.contests[k] == before.scheduled_contest(k, now),
                forall|k: int| i <= k < n ==> self@.contests[k] == before.contests[k],
                ended@ == before.newly_ended(now, i as int),
            decreases n - i,
        {
            let id = self.contests[i].id;
            let slots = self.contests[i].schedule.slots;
            let was = self.contests[i].status;
            let full = self.all_seats_locked(id, slots);
            let next = was.advance(&self.contests[i].schedule, now, full);
            self.contests[i].status = next;
            match (was, next) {
                (ContestStatus::Ended, _) => {},
                (_, ContestStatus::Ended) => {
                    ended.push(id);
                },
                _ => {},
            }
            i += 1;
        }
        proof {
            let after = self@;
            assert(after.contests =~= before.scheduled(now).contests);
            before.lemma_keeps_payments(after);
            assert forall|k: int| 0 <= k < after.contests.len() implies after.contests[k].id
                == before.contests[k].id by {}
            assert forall|k: int|
                0 <= k < after.participants.len() implies #[trigger] after.lock_consistent(k) by {
                assert(before.lock_consistent(k));
            }
        }
        ended
    }

    /// A ledger of awards that fails at some length fails at every
    /// greater one.
    proof fn lemma_paying_fails(
        &self,
        contest: u128,
        fractions: Seq<u32>,
        now: i64,
        i: int,
        j: int,
    )
        requires
            0 <= i <= j,
            self@.paid_ledger(contest, fractions, now, i) is None,
        ensures
            self@.paid_ledger(contest, fractions, now, j) is None,
        decreases j - i,
    {
        if i < j {
            self.lemma_paying_fails(contest, fractions, now, i, j - 1);
        }
    }

    /// What settlement pays enrolment `i`, with its line in the snapshot.
    fn award_of(&self, ci: usize, contest: u128, pool: u64, curve: &PayoutCurve, i: usize) -> (r:
        (Option<LeaderboardEntry>, Option<i64>))
        requires
            self@.contest_at(contest) == ci,
            ci < self@.boards.len(),
            i < self@.participants.len(),
            pool == self@.pool(contest),
            pool <= i64::MAX,
        ensures
            r.0 == self@.final_standing(contest, i as int),
            r.1 == self@.award(contest, curve@, i as int),
            r.1 matches Some(a) ==> 0 <= a,
    {
        let p = self.participants[i];
        if p.contest != contest {
            return (None, None);
        }
        match find_entry(&self.boards[ci], p.user) {
            Some(e) => match curve.payout(pool, e.rank) {
                Some(a) => (Some(e), Some(a as i64)),
                None => (Some(e), None),
            },
            None => (None, None),
        }
    }

    /// Settles `contest`, once: takes the latest snapshot as the final
    /// ranks and values, computes the prize pool as the entry fees
    /// collected, credits every ranked participant the share that `curve`
    /// gives the rank, and moves the contest to `Settled`, all or nothing.
    /// The awards together never exceed the pool.
    /// A contest that is settled already is left as it is, so a repeated
    /// call pays nobody twice. Refused with `NotFound` where the contest is
    /// missing, with `Conflict` before it has ended, and with `Internal`
    /// where the pool or a credit leaves the range of amounts; a refusal
    /// changes nothing, and the contest stays `Ended`.
    pub fn settle(&mut self, contest: u128, curve: &PayoutCurve, now: i64) -> (res: Result<
        Settlement,
        AppError,
    >)
        requires
            old(self).wf(),
        ensures
            final(self).wf(),
            match res {
                Ok(s) => {
                    &&& old(self)@.settle_outcome(contest, curve@, now) == Ok::<
                        Settlement,
                        ErrorKind,
                    >(s)
                    &&& s is AlreadySettled ==> *final(self) == *old(self)
                    &&& s is Settled ==> final(self)@ == old(self)@.settled(contest, curve@, now)
                    &&& s matches Settlement::Settled { pool } ==> 0 <= old(self)@.awarded_total(
                        contest,
                        curve@,
                        old(self)@.participants.len() as int,
                    ) <= pool
                },
                Err(e) => {
                    &&& old(self)@.settle_outcome(contest, curve@, now) == Err::<
                        Settlement,
                        ErrorKind,
                    >(e.spec_kind())
                    &&& *final(self) == *old(self)
                },
            },
    {
        let ci = match self.find_contest(contest) {
            Some(i) => i,
            None => { return Err(AppError::NotFound); },
        };
        match self.contests[ci].status {
            ContestStatus::Settled => { return Ok(Settlement::AlreadySettled); },
            ContestStatus::Ended => {},
            _ => { return Err(AppError::Conflict("Contest has not ended".to_owned())); },
        }
        let collected = self.ledger.collected(contest);
        if collected < 0 || collected > i64::MAX as i128 {
            return Err(AppError::Internal);
        }
        let pool = collected as u64;
        let ghost before = self@;
        let n = self.participants.len();

        // The credits are tried on a copy, which replaces the ledger only
        // when every one of them went through.
        let mut ledger = self.ledger.snapshot();
        let mut i: usize = 0;
        while i < n
            invariant
                self.wf(),
                self@ == before,
                *self == *old(self),
                n == before.participants.len(),
                i <= n,
                before.has_contest(contest),
                before.contest_at(contest) == ci,
                before.contest(contest).status == ContestStatus::Ended,
                pool == before.pool(contest),
                pool <= i64::MAX,
                ledger.wf(),
                before.paid_ledger(contest, curve@, now, i as int) == Some(ledger@),
                forall|o: u128| before.ledger.has_wallet(o) ==> ledger@.has_wallet(o),
            decreases n - i,
        {
            proof {
                if before.paid_ledger(contest, curve@, now, i + 1) is None {
                    self.lemma_paying_fails(contest, curve@, now, i + 1, n as int);
                }
            }
            let user = self.participants[i].user;
            let (_, award) = self.award_of(ci, contest, pool, curve, i);
            match award {
                Some(a) => {
                    match ledger.credit(user, a, EntryKind::Payout, Some(contest), now) {
                        Ok(()) => {},
                        Err(_) => { return Err(AppError::Internal); },
                    }
                },
                None => {},
            }
            i += 1;
        }

        let mut k: usize = 0;
        while k < n
            invariant
                before == old(self)@,
                before.wf(),
                self.ledger_wf(),
                n == before.participants.len(),
                k <= n,
                before.has_contest(contest),
                before.contest_at(contest) == ci,
                before.contest(contest).status == ContestStatus::Ended,
                before.paid_ledger(contest, curve@, now, n as int) == Some(ledger@),
                ledger.wf(),
                forall|o: u128| before.ledger.has_wallet(o) ==> ledger@.has_wallet(o),
                pool == before.pool(contest),
                pool <= i64::MAX,
                self@.ledger == before.ledger,
                self@.contests == before.contests,
                self@.boards == before.boards,
                self@.allocations == before.allocations,
                self@.participants.len() == n,
                forall|j: int|
                    0 <= j < k ==> self@.participants[j] == before.settled_participant(
                        contest,
                        curve@,
                        j,
                    ),
                forall|j: int| k <= j < n ==> self@.participants[j] == before.participants[j],
                forall|j: int|
                    0 <= j < n ==> (#[trigger] self@.participants[j]).contest
                        == before.participants[j].contest && self@.participants[j].user
                        == before.participants[j].user && self@.participants[j].locked_at
                        == before.participants[j].locked_at,
            decreases n - k,
        {
            let (line, award) = self.award_of(ci, contest, pool, curve, k);
            match line {
                Some(e) => {
                    let p = self.participants[k];
                    self.participants.set(
                        k,
                        Participant {
                            id: p.id,
                            contest: p.contest,
                            user: p.user,
                            joined_at: p.joined_at,
                            locked_at: p.locked_at,
                            final_rank: Some(e.rank),
                            final_value: Some(e.portfolio_value),
                            payout: award,
                        },
                    );
                },
                None => {},
            }
            k += 1;
        }
        self.ledger = ledger;
        self.contests[ci].status = ContestStatus::Settled;
        proof {
            let after = self@;
            assert(after.participants =~= before.settled(contest, curve@, now).participants);
            law_settlement_writes_the_awards(before, contest, curve@, now, n as int);
            assert forall|j: int| 0 <= j < before.ledger.entries.len() implies
                #[trigger] after.ledger.entries[j] == before.ledger.entries[j] by {
                assert(after.ledger.entries.take(before.ledger.entries.len() as int)[j]
                    == after.ledger.entries[j]);
            }
            before.lemma_keeps_payments(after);
            use_type_invariant(curve);
            law_awards_at_most_pool(before, contest, curve@);
            assert forall|a: int, b: int|
                0 <= a < b < after.participants.len() implies !(
            #[trigger] after.participants[a]).is_for(
                (#[trigger] after.participants[b]).contest,
                after.participants[b].user,
            ) by {
                assert(!before.participants[a].is_for(
                    before.participants[b].contest,
                    before.participants[b].user,
                ));
            }
            assert forall|j: int| 0 <= j < after.participants.len() implies after.has_contest(
                (#[trigger] after.participants[j]).contest,
            ) && after.ledger.has_wallet(after.participants[j].user) by {
                let cid = before.participants[j].contest;
                let q = before.contest_at(cid);
                assert(after.contests[q].id == cid);
            }
            assert forall|j: int|
                0 <= j < after.participants.len() implies #[trigger] after.lock_consistent(j) by {
                assert(before.lock_consistent(j));
            }
        }
        Ok(Settlement::Settled { pool: pool as i64 })
    }

    /// The phase of `contest` and, from the latest snapshot, the rank and
    /// value of `user` where the snapshot ranks the user. Refused with
    /// `NotFound` where the contest is missing.
    pub fn contest_status(&self, contest: u128, user: u128) -> (res: Result<
        ContestStatusResponse,
        AppError,
    >)
        requires
            self.wf(),
        ensures
            match res {
                Ok(r) => {
                    &&& self@.has_contest(contest)
                    &&& r.status == self@.status_of(contest, user).0
                    &&& match self@.status_of(contest, user).1 {
                        Some(e) => r.current_rank == Some(e.rank) && r.portfolio_value == Some(
                            e.portfolio_value,
                        ),
                        None => r.current_rank is None && r.portfolio_value is None,
                    }
                },
                Err(e) => e.spec_kind() == ErrorKind::NotFound && !self@.has_contest(contest),
            },
    {
        let ci = match self.find_contest(contest) {
            Some(i) => i,
            None => { return Err(AppError::NotFound); },
        };
        let status = self.contests[ci].status;
        match find_entry(&self.boards[ci], user) {
            Some(e) => Ok(
                ContestStatusResponse {
                    status,
                    current_rank: Some(e.rank),
                    portfolio_value: Some(e.portfolio_value),
                },
            ),
            None => Ok(ContestStatusResponse { status, current_rank: None, portfolio_value: None }),
        }
    }

    /// The final rank, value and payout of `user` in `contest`. Refused
    /// with `NotFound` where the user does not take part, and with
    /// `Conflict` until settlement has set the final rank and value.
    pub fn contest_results(&self, contest: u128, user: u128) -> (res: Result<
        ContestResultsResponse,
        AppError,
    >)
        requires
            self.wf(),
        ensures
            match res {
                Ok(r) => self@.results_outcome(contest, user) == Ok::<
                    (u64, i64, Option<i64>),
                    ErrorKind,
                >((r.rank, r.final_value, r.payout)),
                Err(e) => self@.results_outcome(contest, user) == Err::<
                    (u64, i64, Option<i64>),
                    ErrorKind,
                >(e.spec_kind()) && (e.spec_kind() == ErrorKind::Conflict ==> e.spec_message()
                    == text_not_settled()),
            },
    {
        let pi = match self.find_participant(contest, user) {
            Some(i) => i,
            None => { return Err(AppError::NotFound); },
        };
        let p = self.participants[pi];
        match (p.final_rank, p.final_value) {
            (Some(rank), Some(final_value)) => Ok(
                ContestResultsResponse { rank, final_value, payout: p.payout },
            ),
            _ => Err(AppError::Conflict("Contest not yet settled".to_owned())),
        }
    }

    /// The enrolment of `user` in `contest` and its locked allocations.
    pub fn participant(&self, contest: u128, user: u128) -> (res: Option<
        (Participant, &Vec<Allocation>),
    >)
        requires
            self.wf(),
        ensures
            match res {
                Some((p, a)) => self@.is_participant(contest, user) && p == self@.participant(
                    contest,
                    user,
                ) && a@ == self@.allocations_of(contest, user),
                None => !self@.is_participant(contest, user),
            },
    {
        match self.find_participant(contest, user) {
            Some(i) => Some((self.participants[i], &self.allocations[i])),
            None => None,
        }
    }

    /// The contest with this id.
    pub fn contest(&self, id: u128) -> (res: Option<&Contest>)
        requires
            self.wf(),
        ensures
            match res {
                Some(c) => self@.has_contest(id) && *c == self@.contest(id),
                None => !self@.has_contest(id),
            },
    {
        match self.find_contest(id) {
            Some(i) => Some(&self.contests[i]),
            None => None,
        }
    }

    /// The balance of `user`, in the virtual currency. Refused with
    /// `NotFound` where the user has no wallet.
    pub fn wallet(&self, user: u128) -> (res: Result<WalletResponse, AppError>)
        requires
            self.wf(),
        ensures
            match res {
                Ok(w) => self@.ledger.has_wallet(user) && w.balance == self@.ledger.balances[user]
                    && w.balance >= 0 && w.currency@ == text_currency(),
                Err(e) => e.spec_kind() == ErrorKind::NotFound && !self@.ledger.has_wallet(user),
            },
    {
        match self.ledger.balance(user) {
            Some(balance) => {
                proof {
                    self.ledger.lemma_balance_is_sum(user);
                }
                Ok(WalletResponse { balance, currency: "VCOIN".to_owned() })
            },
            None => Err(AppError::NotFound),
        }
    }

    /// The ledger entries of `user`, newest first, at most fifty.
    pub fn transactions(&self, user: u128) -> (out: Vec<LedgerEntry>)
        ensures
            out@ == newest_first(self@.ledger.entries, user, TRANSACTION_LIMIT as nat),
    {
        self.ledger.transactions(user, TRANSACTION_LIMIT)
    }

    /// Corrects the balance of `user` by `amount`: a credit where it is
    /// positive, a debit where it is negative, recorded as an adjustment.
    /// Refused as the credit or debit is; a refusal changes nothing.
    pub fn adjust(&mut self, user: u128, amount: i64, now: i64) -> (res: Result<(), AppError>)
        requires
            old(self).wf(),
        ensures
            final(self).wf(),
            outcome(res) == if amount >= 0 {
                old(self)@.ledger.credit_outcome(user, amount)
            } else if amount == i64::MIN {
                Err(ErrorKind::Validation)
            } else {
                old(self)@.ledger.debit_outcome(user, (-amount) as i64)
            },
            res is Ok ==> final(self)@ == (EngineView {
                ledger: old(self)@.ledger.post(
                    LedgerEntry {
                        wallet: user,
                        amount,
                        kind: EntryKind::Adjustment,
                        reference: None,
                        timestamp: now,
                    },
                ),
                ..old(self)@
            }),
            res is Err ==> *final(self) == *old(self),
    {
        let ghost before = self@;
        let res = if amount >= 0 {
            self.ledger.credit(user, amount, EntryKind::Adjustment, None, now)
        } else if amount == i64::MIN {
            Err(AppError::Validation("Amount is out of range".to_owned()))
        } else {
            self.ledger.debit(user, -amount, EntryKind::Adjustment, None, now)
        };
        proof {
            if res is Ok {
                before.lemma_ledger_step(
                    self@.ledger,
                    LedgerEntry {
                        wallet: user,
                        amount,
                        kind: EntryKind::Adjustment,
                        reference: None,
                        timestamp: now,
                    },
                );
            }
        }
        res
    }
}

} // verus!
