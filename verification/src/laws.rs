//! Laws of the engine: what holds across several operations, stated over
//! the model of the state and proved from it.

use vstd::prelude::*;
use crate::allocation::{Allocation, is_complete};
use crate::contest::ContestStatus;
use crate::error::ErrorKind;
use crate::ingest::{IngesterView, Tick};
use crate::market::{PriceCandle, spec_bucket_start, spec_max, spec_min};
use crate::model::{EngineView, Participant, Settlement, is_fee_of};

verus! {

/// Locking keeps the state well formed and the enrolment where it was.
pub proof fn lemma_locked_state(
    v: EngineView,
    contest: u128,
    user: u128,
    allocations: Seq<Allocation>,
    now: i64,
)
    requires
        v.wf(),
        v.lock_outcome(contest, user, allocations) is Ok,
    ensures
        v.locked(contest, user, allocations, now).wf(),
        v.locked(contest, user, allocations, now).is_participant(contest, user),
        v.locked(contest, user, allocations, now).participant_at(contest, user)
            == v.participant_at(contest, user),
        forall|id: u128| v.locked(contest, user, allocations, now).contest(id) == v.contest(id),
{
    let after = v.locked(contest, user, allocations, now);
    let i = v.participant_at(contest, user);
    assert forall|k: int|
        0 <= k < after.participants.len() implies #[trigger] after.lock_consistent(k) by {
        assert(v.lock_consistent(k));
    }
    v.lemma_keeps_payments(after);
    after.lemma_participant_at(i);
}

/// An allocation is locked exactly once. A set that sums to 100% locks an
/// unlocked enrolment of a contest that has not started; from then on
/// every further set that sums to 100% is refused with `Conflict`, and the
/// stored allocations are those of the first lock.
pub proof fn law_lock_once(
    v: EngineView,
    contest: u128,
    user: u128,
    first: Seq<Allocation>,
    second: Seq<Allocation>,
    now: i64,
)
    requires
        v.wf(),
        is_complete(first),
        is_complete(second),
        v.is_participant(contest, user),
        v.participant(contest, user).locked_at is None,
        v.contest(contest).status.spec_admits_lock(),
    ensures
        v.lock_outcome(contest, user, first) == Ok::<(), ErrorKind>(()),
        v.locked(contest, user, first, now).lock_outcome(contest, user, second) == Err::<
            (),
            ErrorKind,
        >(ErrorKind::Conflict),
        v.locked(contest, user, first, now).allocations_of(contest, user) == first,
        v.locked(contest, user, first, now).participant(contest, user).locked_at == Some(now),
{
    lemma_locked_state(v, contest, user, first, now);
}

/// Settling keeps the state well formed and every contest where it was.
pub proof fn lemma_settled_state(v: EngineView, contest: u128, fractions: Seq<u32>, now: i64)
    requires
        v.wf(),
        v.settle_outcome(contest, fractions, now) matches Ok(Settlement::Settled { .. }),
    ensures
        v.settled(contest, fractions, now).has_contest(contest),
        v.settled(contest, fractions, now).contest_at(contest) == v.contest_at(contest),
        v.settled(contest, fractions, now).contest(contest).status == ContestStatus::Settled,
        v.settled(contest, fractions, now).boards == v.boards,
{
    let after = v.settled(contest, fractions, now);
    let i = v.contest_at(contest);
    assert(after.contests[i].id == contest);
}

/// Settlement happens once. After a contest was settled, every further
/// call of settlement, at any time and with any curve, finds it settled
/// and does nothing: there is one transition to `Settled`, and one payout
/// per ranked participant.
pub proof fn law_settle_once(
    v: EngineView,
    contest: u128,
    fractions: Seq<u32>,
    now: i64,
    again_with: Seq<u32>,
    later: i64,
)
    requires
        v.wf(),
        v.settle_outcome(contest, fractions, now) matches Ok(Settlement::Settled { .. }),
    ensures
        v.contest(contest).status == ContestStatus::Ended,
        v.settled(contest, fractions, now).contest(contest).status == ContestStatus::Settled,
        v.settled(contest, fractions, now).settle_outcome(contest, again_with, later) == Ok::<
            Settlement,
            ErrorKind,
        >(Settlement::AlreadySettled),
{
    lemma_settled_state(v, contest, fractions, now);
}

/// No phase ever moves backward: not in a pass of the scheduler, which
/// never settles a contest either, and not in settlement, which moves an
/// ended contest to `Settled` and leaves every other contest alone.
pub proof fn law_phases_move_forward(
    v: EngineView,
    now: i64,
    contest: u128,
    fractions: Seq<u32>,
    i: int,
)
    requires
        v.wf(),
        0 <= i < v.contests.len(),
    ensures
        v.contests[i].status.spec_rank() <= v.scheduled(now).contests[i].status.spec_rank(),
        v.scheduled(now).contests[i].status == ContestStatus::Settled <==> v.contests[i].status
            == ContestStatus::Settled,
        v.settle_outcome(contest, fractions, now) matches Ok(Settlement::Settled { .. })
            ==> v.contests[i].status.spec_rank() <= v.settled(
            contest,
            fractions,
            now,
        ).contests[i].status.spec_rank(),
{
}

/// A join is all or nothing. In every state, a user who does not take part
/// in a contest has paid no entry fee for it; a refused join changes
/// nothing, so where such a user is refused, for want of funds or because
/// the contest is not open, there is neither an enrolment nor an entry fee
/// of the user for the contest afterwards. A join that is refused for want
/// of funds is always that of a user who does not take part.
pub proof fn law_refused_join_leaves_no_trace(v: EngineView, contest: u128, user: u128)
    requires
        v.wf(),
    ensures
        !v.is_participant(contest, user) ==> !v.has_paid(contest, user),
        v.join_outcome(contest, user) == Err::<(), ErrorKind>(ErrorKind::PaymentRequired) ==> !
            v.is_participant(contest, user) && !v.has_paid(contest, user),
{
    if v.has_paid(contest, user) {
        let k = choose|k: int|
            0 <= k < v.ledger.entries.len() && is_fee_of(
                #[trigger] v.ledger.entries[k],
                contest,
                user,
            );
        assert(v.fee_is_enrolled(k));
    }
}

/// A join that succeeds leaves both of its effects: an enrolment that was
/// not there before, and the entry fee as the last entry of the ledger,
/// taken from the balance of the user.
pub proof fn law_join_leaves_both(
    v: EngineView,
    contest: u128,
    user: u128,
    id: u128,
    now: i64,
)
    requires
        v.wf(),
        v.join_outcome(contest, user) is Ok,
    ensures
        !v.is_participant(contest, user),
        !v.has_paid(contest, user),
        v.joined(contest, user, id, now).is_participant(contest, user),
        v.joined(contest, user, id, now).has_paid(contest, user),
        v.joined(contest, user, id, now).participants.last() == Participant::fresh(
            id,
            contest,
            user,
            now,
        ),
        v.joined(contest, user, id, now).ledger.entries.last() == v.fee_entry(contest, user, now),
        v.joined(contest, user, id, now).ledger.balances[user] == v.ledger.balances[user]
            - v.contest(contest).entry_fee,
{
    let after = v.joined(contest, user, id, now);
    let n = v.participants.len() as int;
    law_refused_join_leaves_no_trace(v, contest, user);
    assert(after.participants[n].is_for(contest, user));
    assert(is_fee_of(
        after.ledger.entries[v.ledger.entries.len() as int],
        contest,
        user,
    ));
}

/// The extremes of a candle do not depend on the order of its ticks, and
/// a repeated tick does not move them.
pub proof fn law_extremes_ignore_order(c: PriceCandle, a: i64, b: i64)
    ensures
        c.spec_absorb(a).spec_absorb(b).high == c.spec_absorb(b).spec_absorb(a).high,
        c.spec_absorb(a).spec_absorb(b).low == c.spec_absorb(b).spec_absorb(a).low,
        c.spec_absorb(a).spec_absorb(a).high == c.spec_absorb(a).high,
        c.spec_absorb(a).spec_absorb(a).low == c.spec_absorb(a).low,
        c.spec_absorb(a).spec_absorb(b).open == c.open,
{
}

/// Two ticks that open a bucket give the same extremes in either order:
/// the higher price and the lower one.
pub proof fn law_two_ticks_in_either_order(
    asset: u128,
    bucket: i64,
    a: i64,
    b: i64,
    volume_a: Option<u64>,
    volume_b: Option<u64>,
)
    ensures
        PriceCandle::spec_first(asset, bucket, a, volume_a).spec_absorb(b).high == spec_max(a, b),
        PriceCandle::spec_first(asset, bucket, b, volume_b).spec_absorb(a).high == spec_max(a, b),
        PriceCandle::spec_first(asset, bucket, a, volume_a).spec_absorb(b).low == spec_min(a, b),
        PriceCandle::spec_first(asset, bucket, b, volume_b).spec_absorb(a).low == spec_min(a, b),
{
}

/// Two ticks of one instrument that fall into one bucket leave a candle
/// with the same high and low, whichever arrives first, whatever the
/// ingester held before.
pub proof fn law_ingest_order(v: IngesterView, s: Tick, t: Tick)
    requires
        v.wf(),
        s.instrument_id == t.instrument_id,
        spec_bucket_start(s.observed_at, v.width) == spec_bucket_start(t.observed_at, v.width),
        v.outcome(s) is Stored,
        v.outcome(t) is Stored,
    ensures
        ({
            let key = (
                v.table[s.instrument_id],
                spec_bucket_start(s.observed_at, v.width) as i64,
            );
            &&& v.after(s).after(t).candles.dom().contains(key)
            &&& v.after(t).after(s).candles.dom().contains(key)
            &&& v.after(s).after(t).candles[key].high == v.after(t).after(s).candles[key].high
            &&& v.after(s).after(t).candles[key].low == v.after(t).after(s).candles[key].low
        }),
{
}

} // verus!
