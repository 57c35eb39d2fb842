//! The replay feed: a window of prices sent one by one at a fixed pace,
//! then a close.

use vstd::prelude::*;
use crate::market::PriceCandle;

verus! {

/// The seconds between two messages of a replay.
pub const REPLAY_PACE_SECONDS: u64 = 1;

/// One message of a replay: an instant and the price then.
#[derive(Clone, Copy, Debug, PartialEq, Eq)]
pub struct ReplayTick {
    pub timestamp: i64,
    pub price: i64,
}

/// What the transport is to do next.
#[derive(Clone, Copy, Debug, PartialEq, Eq)]
pub enum ReplayAction {
    /// Send this message, then report how the sending went.
    Send(ReplayTick),
    /// Send the close frame and end the feed.
    Close,
}

/// What the transport reports.
#[derive(Clone, Copy, Debug, PartialEq, Eq)]
pub enum ReplayEvent {
    /// The feed begins, or the last message went out and the pace was kept.
    Ready,
    /// The last message could not be sent: the subscriber is gone.
    SendFailed,
}

/// The mathematical content of a replay.
pub struct ReplayView {
    /// The messages of the window, oldest first.
    pub ticks: Seq<ReplayTick>,
    /// How many of them were handed out.
    pub sent: nat,
    /// Whether the feed has ended.
    pub closed: bool,
}

impl ReplayView {
    /// What is to be done on `event`: the next message while the feed is
    /// open and one is left, the close otherwise. A failed sending ends
    /// the feed: nothing is sent again.
    pub open spec fn action(self, event: ReplayEvent) -> ReplayAction {
        if self.closed || event == ReplayEvent::SendFailed || self.sent >= self.ticks.len() {
            ReplayAction::Close
        } else {
            ReplayAction::Send(self.ticks[self.sent as int])
        }
    }

    /// The replay after `event`.
    pub open spec fn after(self, event: ReplayEvent) -> ReplayView {
        match self.action(event) {
            ReplayAction::Send(_) => ReplayView { sent: self.sent + 1, ..self },
            ReplayAction::Close => ReplayView { closed: true, ..self },
        }
    }
}

/// The message that replays a candle: its instant and its close.
pub open spec fn spec_tick_of(c: PriceCandle) -> ReplayTick {
    ReplayTick { timestamp: c.bucket, price: c.close }
}

/// A replay in progress.
#[derive(Debug)]
pub struct ReplaySession {
    ticks: Vec<ReplayTick>,
    sent: usize,
    closed: bool,
}

impl View for ReplaySession {
    type V = ReplayView;

    closed spec fn view(&self) -> ReplayView {
        ReplayView { ticks: self.ticks@, sent: self.sent as nat, closed: self.closed }
    }
}

impl ReplaySession {
    /// The invariant of every replay: no more was sent than there is.
    #[verifier::type_invariant]
    spec fn sent_within(self) -> bool {
        self.sent <= self.ticks@.len()
    }

    /// A replay of the candles of a window, oldest first, of which nothing
    /// was sent yet.
    pub fn new(window: &Vec<PriceCandle>) -> (s: ReplaySession)
        ensures
            s@.ticks == window@.map_values(|c: PriceCandle| spec_tick_of(c)),
            s@.sent == 0,
            !s@.closed,
    {
        let mut ticks: Vec<ReplayTick> = Vec::new();
        let mut i: usize = 0;
        while i < window.len()
            invariant
                i <= window@.len(),
                ticks@ =~= window@.take(i as int).map_values(|c: PriceCandle| spec_tick_of(c)),
            decreases window@.len() - i,
        {
            ticks.push(ReplayTick { timestamp: window[i].bucket, price: window[i].close });
            i += 1;
        }
        ReplaySession { ticks, sent: 0, closed: false }
    }

    /// Decides what the transport is to do on `event`. The messages go out
    /// in order, each at most once; after the last one, or after a failed
    /// sending, the feed is closed and stays closed.
    pub fn step(&mut self, event: ReplayEvent) -> (a: ReplayAction)
        ensures
            a == old(self)@.action(event),
            final(self)@ == old(self)@.after(event),
            final(self)@.sent <= final(self)@.ticks.len(),
    {
        proof {
            use_type_invariant(&*self);
        }
        let failed = match event {
            ReplayEvent::SendFailed => true,
            ReplayEvent::Ready => false,
        };
        if self.closed || failed || self.sent >= self.ticks.len() {
            self.closed = true;
            ReplayAction::Close
        } else {
            let t = self.ticks[self.sent];
            self.sent = self.sent + 1;
            ReplayAction::Send(t)
        }
    }
}

} // verus!
