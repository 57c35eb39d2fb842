//! Ranking: the order of the participants of a contest by portfolio value.

use vstd::prelude::*;
use crate::model::LeaderboardEntry;

verus! {

/// What a participant brings to a ranking: the portfolio value and the
/// instant of the lock.
#[derive(Clone, Copy, Debug, PartialEq, Eq)]
pub struct Standing {
    pub user: u128,
    pub value: i64,
    pub locked_at: i64,
}

/// Whether `a` ranks strictly better than `b`: by the higher value; on
/// equal values by the earlier lock; on equal locks by the lower user id.
pub open spec fn precedes(a: Standing, b: Standing) -> bool {
    a.value > b.value || (a.value == b.value && (a.locked_at < b.locked_at || (a.locked_at
        == b.locked_at && a.user < b.user)))
}

/// Whether a sequence is in ranking order: nobody stands behind someone
/// they rank better than.
pub open spec fn ordered(s: Seq<Standing>) -> bool {
    forall|i: int, j: int| 0 <= i < j < s.len() ==> !precedes(s[j], s[i])
}

/// Whether `a` ranks strictly better than `b`.
pub fn stands_before(a: &Standing, b: &Standing) -> (r: bool)
    ensures
        r == precedes(*a, *b),
{
    a.value > b.value || (a.value == b.value && (a.locked_at < b.locked_at || (a.locked_at
        == b.locked_at && a.user < b.user)))
}

/// Inserting an element adds it to the elements of a sequence.
proof fn lemma_insert_multiset(s: Seq<Standing>, i: int, a: Standing)
    requires
        0 <= i <= s.len(),
    ensures
        s.insert(i, a).to_multiset() =~= s.to_multiset().insert(a),
{
    let t = s.insert(i, a);
    assert(t.remove(i) =~= s);
    t.to_multiset_ensures();
}

/// Puts `s` at its place in a ranking.
fn place(ranked: &mut Vec<Standing>, s: Standing)
    requires
        ordered(old(ranked)@),
    ensures
        ordered(final(ranked)@),
        final(ranked)@.to_multiset() =~= old(ranked)@.to_multiset().insert(s),
        final(ranked)@.len() == old(ranked)@.len() + 1,
{
    let mut p: usize = 0;
    while p < ranked.len() && !stands_before(&s, &ranked[p])
        invariant
            p <= ranked@.len(),
            ranked@ == old(ranked)@,
            forall|k: int| 0 <= k < p ==> !precedes(s, ranked@[k]),
        decreases ranked@.len() - p,
    {
        p += 1;
    }
    let ghost before = ranked@;
    ranked.insert(p, s);
    proof {
        lemma_insert_multiset(before, p as int, s);
        let after = ranked@;
        assert forall|i: int, j: int| 0 <= i < j < after.len() implies !precedes(
            after[j],
            after[i],
        ) by {
            if j < p {
            } else if j == p {
            } else if i < p {
            } else if i == p {
                if j - 1 > p {
                    assert(!precedes(before[j - 1], before[p as int]));
                }
            }
        }
    }
}

/// Ranks the standings: the same standings, best first. On equal values
/// the earlier lock ranks better.
pub fn rank_standings(standings: &Vec<Standing>) -> (ranked: Vec<Standing>)
    ensures
        ordered(ranked@),
        ranked@.to_multiset() =~= standings@.to_multiset(),
        ranked@.len() == standings@.len(),
{
    let mut ranked: Vec<Standing> = Vec::new();
    let mut i: usize = 0;
    proof {
        assert(standings@.take(0) =~= ranked@);
    }
    while i < standings.len()
        invariant
            i <= standings@.len(),
            ordered(ranked@),
            ranked@.len() == i,
            ranked@.to_multiset() =~= standings@.take(i as int).to_multiset(),
        decreases standings@.len() - i,
    {
        proof {
            assert(standings@.take(i + 1) =~= standings@.take(i as int).push(standings@[i as int]));
            vstd::seq_lib::to_multiset_build(standings@.take(i as int), standings@[i as int]);
        }
        place(&mut ranked, standings[i]);
        i += 1;
    }
    proof {
        assert(standings@.take(i as int) =~= standings@);
    }
    ranked
}

/// The snapshot that a ranking writes: line `k` carries rank `k + 1`.
pub open spec fn spec_entries(ranked: Seq<Standing>, contest: u128, now: i64) -> Seq<
    LeaderboardEntry,
> {
    Seq::new(
        ranked.len(),
        |k: int|
            LeaderboardEntry {
                contest,
                user: ranked[k].user,
                rank: (k + 1) as u64,
                portfolio_value: ranked[k].value,
                computed_at: now,
            },
    )
}

/// Writes the snapshot of a ranking, ranks counting from 1.
pub fn to_entries(ranked: &Vec<Standing>, contest: u128, now: i64) -> (out: Vec<
    LeaderboardEntry,
>)
    ensures
        out@ == spec_entries(ranked@, contest, now),
{
    let mut out: Vec<LeaderboardEntry> = Vec::new();
    let mut k: usize = 0;
    while k < ranked.len()
        invariant
            k <= ranked@.len(),
            out@ =~= spec_entries(ranked@.take(k as int), contest, now),
        decreases ranked@.len() - k,
    {
        out.push(
            LeaderboardEntry {
                contest,
                user: ranked[k].user,
                rank: k as u64 + 1,
                portfolio_value: ranked[k].value,
                computed_at: now,
            },
        );
        k += 1;
    }
    out
}

/// The line of `user` in a snapshot: the first that names the user.
pub open spec fn spec_find_entry(board: Seq<LeaderboardEntry>, user: u128) -> Option<
    LeaderboardEntry,
>
    decreases board.len(),
{
    if board.len() == 0 {
        None
    } else if board[0].user == user {
        Some(board[0])
    } else {
        spec_find_entry(board.drop_first(), user)
    }
}

/// The line of `user` in a snapshot, if the user is ranked.
pub fn find_entry(board: &Vec<LeaderboardEntry>, user: u128) -> (e: Option<LeaderboardEntry>)
    ensures
        e == spec_find_entry(board@, user),
{
    let mut i: usize = 0;
    proof {
        assert(board@.skip(0) =~= board@);
    }
    while i < board.len()
        invariant
            i <= board@.len(),
            spec_find_entry(board@, user) == spec_find_entry(board@.skip(i as int), user),
        decreases board@.len() - i,
    {
        proof {
            assert(board@.skip(i as int).drop_first() =~= board@.skip(i + 1));
        }
        if board[i].user == user {
            return Some(board[i]);
        }
        i += 1;
    }
    None
}

/// The first `k` lines of a snapshot.
pub fn top(board: &Vec<LeaderboardEntry>, k: usize) -> (out: Vec<LeaderboardEntry>)
    ensures
        out@ == board@.take(if k <= board@.len() {
            k as int
        } else {
            board@.len() as int
        }),
{
    let mut out: Vec<LeaderboardEntry> = Vec::new();
    let mut i: usize = 0;
    while i < board.len() && i < k
        invariant
            i <= board@.len(),
            i <= k,
            out@ =~= board@.take(i as int),
        decreases board@.len() - i,
    {
        out.push(board[i]);
        i += 1;
    }
    out
}

} // verus!
