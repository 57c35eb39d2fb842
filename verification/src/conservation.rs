//! Settlement never pays out more than was collected.

use vstd::prelude::*;
use crate::leaderboard::spec_find_entry;
use crate::ledger::{EntryKind, LedgerEntry};
use crate::model::{EngineView, LeaderboardEntry};
use crate::settlement::{
    FULL_POOL, curve_sum, lemma_fraction_at_most_sum, lemma_total_paid_at_most_pool, spec_share,
    spec_total_paid,
};

verus! {

/// The position of the first line of `user` in a snapshot.
spec fn first_line(board: Seq<LeaderboardEntry>, user: u128) -> Option<int>
    decreases board.len(),
{
    if board.len() == 0 {
        None
    } else if board[0].user == user {
        Some(0)
    } else {
        match first_line(board.drop_first(), user) {
            Some(k) => Some(k + 1),
            None => None,
        }
    }
}

/// The line of a user is the one at the position of its first line.
proof fn lemma_first_line(board: Seq<LeaderboardEntry>, user: u128)
    ensures
        match first_line(board, user) {
            Some(k) => 0 <= k < board.len() && board[k].user == user && spec_find_entry(
                board,
                user,
            ) == Some(board[k]),
            None => spec_find_entry(board, user) is None,
        },
    decreases board.len(),
{
    if board.len() > 0 && board[0].user != user {
        lemma_first_line(board.drop_first(), user);
    }
}

/// The position of the line of enrolment `i` in the snapshot of `contest`.
spec fn line_of(v: EngineView, contest: u128, i: int) -> Option<int> {
    if v.participants[i].contest == contest {
        first_line(v.board(contest), v.participants[i].user)
    } else {
        None
    }
}

/// What the line at position `m` is paid.
spec fn slot(pool: u64, fractions: Seq<u32>, m: int) -> int {
    if 0 <= m < fractions.len() {
        spec_share(pool, fractions[m])
    } else {
        0
    }
}

/// What the first `n` enrolments are paid through the line at `m`.
spec fn paid_at(v: EngineView, contest: u128, fractions: Seq<u32>, n: int, m: int) -> int
    decreases n,
{
    if n <= 0 {
        0
    } else {
        paid_at(v, contest, fractions, n - 1, m) + if line_of(v, contest, n - 1) == Some(m) {
            v.awarded(contest, fractions, n - 1)
        } else {
            0
        }
    }
}

/// What the first `n` enrolments are paid through the lines before `m`.
spec fn paid_before(v: EngineView, contest: u128, fractions: Seq<u32>, n: int, m: int) -> int
    decreases n,
{
    if n <= 0 {
        0
    } else {
        paid_before(v, contest, fractions, n - 1, m) + match line_of(v, contest, n - 1) {
            Some(k) => if k < m {
                v.awarded(contest, fractions, n - 1)
            } else {
                0
            },
            None => 0,
        }
    }
}

/// An enrolment is paid what its line is paid, and nothing without a line.
proof fn lemma_awarded(v: EngineView, contest: u128, fractions: Seq<u32>, i: int)
    requires
        v.wf(),
        v.has_contest(contest),
        0 <= i < v.participants.len(),
        curve_sum(fractions) <= FULL_POOL,
        0 <= v.pool(contest) <= i64::MAX,
    ensures
        match line_of(v, contest, i) {
            Some(m) => 0 <= m < v.board(contest).len() && v.board(contest)[m].user
                == v.participants[i].user && v.awarded(contest, fractions, i) == slot(
                v.pool(contest) as u64,
                fractions,
                m,
            ),
            None => v.awarded(contest, fractions, i) == 0,
        },
        0 <= v.awarded(contest, fractions, i) <= v.pool(contest),
{
    let board = v.board(contest);
    let pool = v.pool(contest) as u64;
    if v.participants[i].contest == contest {
        lemma_first_line(board, v.participants[i].user);
        match first_line(board, v.participants[i].user) {
            Some(m) => {
                if m < fractions.len() {
                    lemma_slot_bound(pool, fractions, m);
                }
            },
            None => {},
        }
    }
}

/// No line is paid more than the pool.
proof fn lemma_slot_bound(pool: u64, fractions: Seq<u32>, m: int)
    requires
        curve_sum(fractions) <= FULL_POOL,
    ensures
        0 <= slot(pool, fractions, m) <= pool,
{
    if 0 <= m < fractions.len() {
        lemma_fraction_at_most_sum(fractions, m);
        let f = fractions[m];
        let x = pool * f;
        assert(0 <= x <= pool * 10_000) by (nonlinear_arith)
            requires
                x == pool * f,
                0 <= f <= 10_000,
                pool >= 0,
        ;
    }
}

/// One line pays one enrolment at most: what the first `n` enrolments are
/// paid through the line at `m` is at most what that line is paid, and
/// nothing where none of them has that line.
proof fn lemma_paid_at(v: EngineView, contest: u128, fractions: Seq<u32>, n: int, m: int)
    requires
        v.wf(),
        v.has_contest(contest),
        0 <= n <= v.participants.len(),
        curve_sum(fractions) <= FULL_POOL,
        0 <= v.pool(contest) <= i64::MAX,
    ensures
        0 <= paid_at(v, contest, fractions, n, m) <= slot(v.pool(contest) as u64, fractions, m),
        (forall|i: int| 0 <= i < n ==> line_of(v, contest, i) != Some(m)) ==> paid_at(
            v,
            contest,
            fractions,
            n,
            m,
        ) == 0,
    decreases n,
{
    if n > 0 {
        lemma_paid_at(v, contest, fractions, n - 1, m);
        lemma_awarded(v, contest, fractions, n - 1);
        if line_of(v, contest, n - 1) == Some(m) {
            assert forall|i: int| 0 <= i < n - 1 implies line_of(v, contest, i) != Some(m) by {
                if line_of(v, contest, i) == Some(m) {
                    lemma_awarded(v, contest, fractions, i);
                    assert(v.participants[i].is_for(
                        v.participants[n - 1].contest,
                        v.participants[n - 1].user,
                    ));
                }
            }
        }
    }
}

/// What is paid through the lines before `m + 1` is what is paid through
/// those before `m` and through the line at `m`.
proof fn lemma_paid_before_step(
    v: EngineView,
    contest: u128,
    fractions: Seq<u32>,
    n: int,
    m: int,
)
    requires
        0 <= n <= v.participants.len(),
    ensures
        paid_before(v, contest, fractions, n, m + 1) == paid_before(v, contest, fractions, n, m)
            + paid_at(v, contest, fractions, n, m),
    decreases n,
{
    if n > 0 {
        lemma_paid_before_step(v, contest, fractions, n - 1, m);
    }
}

/// What is paid through the lines before `m` is what the curve pays the
/// ranks up to `m`, at most.
proof fn lemma_paid_before(v: EngineView, contest: u128, fractions: Seq<u32>, n: int, m: int)
    requires
        v.wf(),
        v.has_contest(contest),
        0 <= n <= v.participants.len(),
        0 <= m,
        curve_sum(fractions) <= FULL_POOL,
        0 <= v.pool(contest) <= i64::MAX,
    ensures
        0 <= paid_before(v, contest, fractions, n, m) <= spec_total_paid(
            v.pool(contest) as u64,
            fractions,
            if m <= fractions.len() {
                m
            } else {
                fractions.len() as int
            },
        ),
    decreases m,
{
    if m == 0 {
        lemma_no_line_before_zero(v, contest, fractions, n);
    } else {
        lemma_paid_before(v, contest, fractions, n, m - 1);
        lemma_paid_before_step(v, contest, fractions, n, m - 1);
        lemma_paid_at(v, contest, fractions, n, m - 1);
    }
}

/// Nothing is paid through the lines before the first.
proof fn lemma_no_line_before_zero(v: EngineView, contest: u128, fractions: Seq<u32>, n: int)
    requires
        v.wf(),
        v.has_contest(contest),
        0 <= n <= v.participants.len(),
        curve_sum(fractions) <= FULL_POOL,
        0 <= v.pool(contest) <= i64::MAX,
    ensures
        paid_before(v, contest, fractions, n, 0) == 0,
    decreases n,
{
    if n > 0 {
        lemma_no_line_before_zero(v, contest, fractions, n - 1);
        lemma_awarded(v, contest, fractions, n - 1);
    }
}

/// Every line lies before the end of the snapshot.
proof fn lemma_all_lines(v: EngineView, contest: u128, fractions: Seq<u32>, n: int)
    requires
        v.wf(),
        v.has_contest(contest),
        0 <= n <= v.participants.len(),
        curve_sum(fractions) <= FULL_POOL,
        0 <= v.pool(contest) <= i64::MAX,
    ensures
        paid_before(v, contest, fractions, n, v.board(contest).len() as int) == v.awarded_total(
            contest,
            fractions,
            n,
        ),
    decreases n,
{
    if n > 0 {
        lemma_all_lines(v, contest, fractions, n - 1);
        lemma_awarded(v, contest, fractions, n - 1);
    }
}

/// Settlement never pays out more than was collected: with a curve that
/// sums to at most the whole pool, the awards of all participants of a
/// contest together are at most its prize pool.
pub proof fn law_awards_at_most_pool(v: EngineView, contest: u128, fractions: Seq<u32>)
    requires
        v.wf(),
        v.has_contest(contest),
        curve_sum(fractions) <= FULL_POOL,
        0 <= v.pool(contest) <= i64::MAX,
    ensures
        0 <= v.awarded_total(contest, fractions, v.participants.len() as int) <= v.pool(contest),
{
    let n = v.participants.len() as int;
    let m = v.board(contest).len() as int;
    lemma_all_lines(v, contest, fractions, n);
    lemma_paid_before(v, contest, fractions, n, m);
    let upto = if m <= fractions.len() {
        m
    } else {
        fractions.len() as int
    };
    lemma_total_paid_at_most_pool(v.pool(contest) as u64, fractions, upto);
}

/// The sum of the amounts of the entries of a log.
pub open spec fn total_amount(entries: Seq<LedgerEntry>) -> int
    decreases entries.len(),
{
    if entries.len() == 0 {
        0
    } else {
        total_amount(entries.drop_last()) + entries.last().amount
    }
}

/// What settlement writes is what it awards: the ledger after the awards
/// of the first `n` enrolments holds the entries from before, followed by
/// payouts of this contest only, whose amounts add up to the awards.
pub proof fn law_settlement_writes_the_awards(
    v: EngineView,
    contest: u128,
    fractions: Seq<u32>,
    now: i64,
    n: int,
)
    requires
        0 <= n <= v.participants.len(),
        v.paid_ledger(contest, fractions, now, n) is Some,
    ensures
        ({
            let before = v.ledger.entries;
            let after = v.paid_ledger(contest, fractions, now, n)->0.entries;
            &&& before.len() <= after.len()
            &&& after.take(before.len() as int) == before
            &&& total_amount(after.skip(before.len() as int)) == v.awarded_total(
                contest,
                fractions,
                n,
            )
            &&& forall|k: int|
                before.len() <= k < after.len() ==> (#[trigger] after[k]).kind
                    == EntryKind::Payout && after[k].reference == Some(contest)
        }),
    decreases n,
{
    let before = v.ledger.entries;
    let old_len = before.len() as int;
    if n > 0 {
        law_settlement_writes_the_awards(v, contest, fractions, now, n - 1);
        let mid = v.paid_ledger(contest, fractions, now, n - 1)->0.entries;
        let after = v.paid_ledger(contest, fractions, now, n)->0.entries;
        match v.award(contest, fractions, n - 1) {
            Some(a) => {
                assert(after.skip(old_len).drop_last() =~= mid.skip(old_len));
            },
            None => {},
        }
    }
}

} // verus!
