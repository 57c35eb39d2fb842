//! The contest state machine: the phases of a contest, the clock-driven
//! transitions between them, and the guards of the participant actions.

use vstd::prelude::*;
use crate::error::{AppError, ErrorKind, outcome};

verus! {

/// The phase of a contest. Phases only ever move forward.
#[derive(Clone, Copy, Debug, PartialEq, Eq, Structural)]
pub enum ContestStatus {
    Upcoming,
    JoiningOpen,
    AllocationLocked,
    Live,
    Ended,
    Settled,
}

/// The instants that drive a contest through its phases, and the number of
/// seats whose locking closes admission early (zero: no early closing).
#[derive(Clone, Copy, Debug, PartialEq, Eq)]
pub struct Schedule {
    pub open_time: i64,
    pub allocation_deadline: i64,
    pub start_time: i64,
    pub end_time: i64,
    pub slots: u32,
}

/// Text sent when a contest does not admit participants.
pub open spec fn text_not_open() -> Seq<char> {
    "Contest is not open for joining"@
}

/// Text sent when a user joins a contest twice.
pub open spec fn text_already_joined() -> Seq<char> {
    "Already joined this contest"@
}

/// Text sent when a participant locks twice.
pub open spec fn text_already_locked() -> Seq<char> {
    "Allocation already locked"@
}

/// Text sent when an allocation arrives after the start.
pub open spec fn text_already_started() -> Seq<char> {
    "Contest has already started"@
}

impl ContestStatus {
    /// The position of the phase in the order of the lifecycle.
    pub open spec fn spec_rank(self) -> int {
        match self {
            ContestStatus::Upcoming => 0,
            ContestStatus::JoiningOpen => 1,
            ContestStatus::AllocationLocked => 2,
            ContestStatus::Live => 3,
            ContestStatus::Ended => 4,
            ContestStatus::Settled => 5,
        }
    }

    /// The position of the phase in the order of the lifecycle.
    pub fn rank(self) -> (r: u8)
        ensures
            r == self.spec_rank(),
    {
        match self {
            ContestStatus::Upcoming => 0,
            ContestStatus::JoiningOpen => 1,
            ContestStatus::AllocationLocked => 2,
            ContestStatus::Live => 3,
            ContestStatus::Ended => 4,
            ContestStatus::Settled => 5,
        }
    }

    /// The phase with the given position, if there is one.
    pub fn from_rank(r: u8) -> (s: Option<ContestStatus>)
        ensures
            match s {
                Some(st) => st.spec_rank() == r,
                None => r > 5,
            },
    {
        match r {
            0 => Some(ContestStatus::Upcoming),
            1 => Some(ContestStatus::JoiningOpen),
            2 => Some(ContestStatus::AllocationLocked),
            3 => Some(ContestStatus::Live),
            4 => Some(ContestStatus::Ended),
            5 => Some(ContestStatus::Settled),
            _ => None,
        }
    }

    /// The name under which the phase is stored and sent.
    pub open spec fn spec_name(self) -> Seq<char> {
        match self {
            ContestStatus::Upcoming => "upcoming"@,
            ContestStatus::JoiningOpen => "joining_open"@,
            ContestStatus::AllocationLocked => "allocation_locked"@,
            ContestStatus::Live => "live"@,
            ContestStatus::Ended => "ended"@,
            ContestStatus::Settled => "settled"@,
        }
    }

    /// The name under which the phase is stored and sent.
    pub fn name(self) -> (n: String)
        ensures
            n@ == self.spec_name(),
    {
        match self {
            ContestStatus::Upcoming => "upcoming".to_owned(),
            ContestStatus::JoiningOpen => "joining_open".to_owned(),
            ContestStatus::AllocationLocked => "allocation_locked".to_owned(),
            ContestStatus::Live => "live".to_owned(),
            ContestStatus::Ended => "ended".to_owned(),
            ContestStatus::Settled => "settled".to_owned(),
        }
    }

    /// The phase that a name stands for.
    pub fn from_name(name: &String) -> (s: Option<ContestStatus>)
        ensures
            match s {
                Some(st) => st.spec_name() == name@,
                None => forall|st: ContestStatus| st.spec_name() != name@,
            },
    {
        if *name == "upcoming".to_owned() {
            Some(ContestStatus::Upcoming)
        } else if *name == "joining_open".to_owned() {
            Some(ContestStatus::JoiningOpen)
        } else if *name == "allocation_locked".to_owned() {
            Some(ContestStatus::AllocationLocked)
        } else if *name == "live".to_owned() {
            Some(ContestStatus::Live)
        } else if *name == "ended".to_owned() {
            Some(ContestStatus::Ended)
        } else if *name == "settled".to_owned() {
            Some(ContestStatus::Settled)
        } else {
            None
        }
    }

    /// The phase after one transition of the clock at `now`. `all_locked`
    /// says whether every seat is taken and locked. Nothing but settlement
    /// leaves `Ended`.
    pub open spec fn spec_step(self, s: Schedule, now: i64, all_locked: bool) -> ContestStatus {
        match self {
            ContestStatus::Upcoming => if now >= s.open_time {
                ContestStatus::JoiningOpen
            } else {
                self
            },
            ContestStatus::JoiningOpen => if now >= s.allocation_deadline || all_locked {
                ContestStatus::AllocationLocked
            } else {
                self
            },
            ContestStatus::AllocationLocked => if now >= s.start_time {
                ContestStatus::Live
            } else {
                self
            },
            ContestStatus::Live => if now >= s.end_time {
                ContestStatus::Ended
            } else {
                self
            },
            ContestStatus::Ended => self,
            ContestStatus::Settled => self,
        }
    }

    /// The phase after every transition that is due at `now` was taken.
    pub open spec fn spec_advance(self, s: Schedule, now: i64, all_locked: bool) -> ContestStatus {
        self.spec_step(s, now, all_locked).spec_step(s, now, all_locked).spec_step(
            s,
            now,
            all_locked,
        ).spec_step(s, now, all_locked)
    }

    /// Takes one transition of the clock, if one is due.
    pub fn step(self, s: &Schedule, now: i64, all_locked: bool) -> (next: ContestStatus)
        ensures
            next == self.spec_step(*s, now, all_locked),
            self.spec_rank() <= next.spec_rank() <= self.spec_rank() + 1,
            next == ContestStatus::Settled <==> self == ContestStatus::Settled,
    {
        match self {
            ContestStatus::Upcoming => if now >= s.open_time {
                ContestStatus::JoiningOpen
            } else {
                self
            },
            ContestStatus::JoiningOpen => if now >= s.allocation_deadline || all_locked {
                ContestStatus::AllocationLocked
            } else {
                self
            },
            ContestStatus::AllocationLocked => if now >= s.start_time {
                ContestStatus::Live
            } else {
                self
            },
            ContestStatus::Live => if now >= s.end_time {
                ContestStatus::Ended
            } else {
                self
            },
            ContestStatus::Ended => self,
            ContestStatus::Settled => self,
        }
    }

    /// One pass of the scheduler over a contest: takes every transition
    /// that is due. The phase never moves backward, no further transition
    /// is due afterwards, and the pass never settles a contest.
    pub fn advance(self, s: &Schedule, now: i64, all_locked: bool) -> (next: ContestStatus)
        ensures
            next == self.spec_advance(*s, now, all_locked),
            self.spec_rank() <= next.spec_rank(),
            next.spec_step(*s, now, all_locked) == next,
            next == ContestStatus::Settled <==> self == ContestStatus::Settled,
    {
        let a = self.step(s, now, all_locked);
        let b = a.step(s, now, all_locked);
        let c = b.step(s, now, all_locked);
        c.step(s, now, all_locked)
    }

    /// Whether participants are admitted in this phase.
    pub open spec fn spec_admits_join(self) -> bool {
        self == ContestStatus::JoiningOpen
    }

    /// Whether an allocation may still be locked in this phase.
    pub open spec fn spec_admits_lock(self) -> bool {
        self != ContestStatus::Live && self != ContestStatus::Ended && self
            != ContestStatus::Settled
    }

    /// Whether the leaderboard is recomputed in this phase.
    pub open spec fn spec_is_ranked(self) -> bool {
        self == ContestStatus::AllocationLocked || self == ContestStatus::Live
    }

    /// Whether the leaderboard is recomputed in this phase.
    pub fn is_ranked(self) -> (b: bool)
        ensures
            b == self.spec_is_ranked(),
    {
        match self {
            ContestStatus::AllocationLocked => true,
            ContestStatus::Live => true,
            _ => false,
        }
    }
}

/// Whether every seat is taken and locked, from the counts of the
/// participants and of those who have locked: the contest has seats, at
/// least as many participants, and all of them have locked.
pub open spec fn spec_seats_full(slots: u32, enrolled: nat, locked: nat) -> bool {
    slots > 0 && enrolled >= slots && locked == enrolled
}

/// Whether every seat is taken and locked.
pub fn seats_full(slots: u32, enrolled: u64, locked: u64) -> (b: bool)
    ensures
        b == spec_seats_full(slots, enrolled as nat, locked as nat),
{
    slots > 0 && enrolled >= slots as u64 && locked == enrolled
}

/// What guards `join` answers.
pub open spec fn spec_join_guard(status: ContestStatus, joined: bool) -> Result<(), ErrorKind> {
    if !status.spec_admits_join() {
        Err(ErrorKind::Conflict)
    } else if joined {
        Err(ErrorKind::Conflict)
    } else {
        Ok(())
    }
}

/// The guard of `join`: the contest must admit participants, and the user
/// must not be one already.
pub fn join_guard(status: ContestStatus, joined: bool) -> (res: Result<(), AppError>)
    ensures
        outcome(res) == spec_join_guard(status, joined),
        res matches Err(e) ==> e.spec_message() == if !status.spec_admits_join() {
            text_not_open()
        } else {
            text_already_joined()
        },
{
    match status {
        ContestStatus::JoiningOpen => {},
        _ => {
            return Err(AppError::Conflict("Contest is not open for joining".to_owned()));
        },
    }
    if joined {
        return Err(AppError::Conflict("Already joined this contest".to_owned()));
    }
    Ok(())
}

/// What guards the allocation lock answers.
pub open spec fn spec_lock_guard(locked: bool, status: ContestStatus) -> Result<(), ErrorKind> {
    if locked {
        Err(ErrorKind::Conflict)
    } else if !status.spec_admits_lock() {
        Err(ErrorKind::Forbidden)
    } else {
        Ok(())
    }
}

/// The guard of the allocation lock: the participant must not have locked
/// yet, and the contest must not have started.
pub fn lock_guard(locked: bool, status: ContestStatus) -> (res: Result<(), AppError>)
    ensures
        outcome(res) == spec_lock_guard(locked, status),
        res matches Err(e) ==> e.spec_message() == if locked {
            text_already_locked()
        } else {
            text_already_started()
        },
{
    if locked {
        return Err(AppError::Conflict("Allocation already locked".to_owned()));
    }
    match status {
        ContestStatus::Live | ContestStatus::Ended | ContestStatus::Settled => Err(
            AppError::Forbidden("Contest has already started".to_owned()),
        ),
        _ => Ok(()),
    }
}

} // verus!
