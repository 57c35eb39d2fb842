//! Market data: price candles per asset and time bucket, the store that
//! keeps one candle per asset and bucket, and the aggregation of a stream
//! of ticks into that store.

use vstd::prelude::*;
use vstd::arithmetic::div_mod::{lemma_fundamental_div_mod, lemma_fundamental_div_mod_converse};
use crate::error::{AppError, ErrorKind};

verus! {

/// One price record for an asset over one time bucket. Prices are in
/// hundredths of a coin; `bucket` is the instant at which the bucket starts.
#[derive(Clone, Copy, Debug, PartialEq, Eq)]
pub struct PriceCandle {
    pub asset: u128,
    pub bucket: i64,
    pub open: i64,
    pub high: i64,
    pub low: i64,
    pub close: i64,
    pub volume: Option<u64>,
}

/// The larger of two prices.
pub open spec fn spec_max(a: i64, b: i64) -> i64 {
    if a >= b {
        a
    } else {
        b
    }
}

/// The smaller of two prices.
pub open spec fn spec_min(a: i64, b: i64) -> i64 {
    if a <= b {
        a
    } else {
        b
    }
}

impl PriceCandle {
    /// The candle that the first tick of a bucket creates.
    pub open spec fn spec_first(asset: u128, bucket: i64, price: i64, volume: Option<u64>)
        -> PriceCandle {
        PriceCandle { asset, bucket, open: price, high: price, low: price, close: price, volume }
    }

    /// The candle after a further tick of its bucket: the extremes widen,
    /// the close follows the arrival, the open and the volume stay.
    pub open spec fn spec_absorb(self, price: i64) -> PriceCandle {
        PriceCandle {
            high: spec_max(self.high, price),
            low: spec_min(self.low, price),
            close: price,
            ..self
        }
    }

    /// A candle is sound when its prices are positive and the extremes
    /// enclose the open and the close.
    pub open spec fn sound(self) -> bool {
        0 < self.low <= self.open <= self.high && self.low <= self.close <= self.high
    }

    /// The candle that the first tick of a bucket creates.
    pub fn first(asset: u128, bucket: i64, price: i64, volume: Option<u64>) -> (c: PriceCandle)
        ensures
            c == PriceCandle::spec_first(asset, bucket, price, volume),
            price > 0 ==> c.sound(),
    {
        PriceCandle { asset, bucket, open: price, high: price, low: price, close: price, volume }
    }

    /// The candle after a further tick of its bucket.
    pub fn absorb(self, price: i64) -> (c: PriceCandle)
        ensures
            c == self.spec_absorb(price),
            self.sound() && price > 0 ==> c.sound(),
    {
        PriceCandle {
            asset: self.asset,
            bucket: self.bucket,
            open: self.open,
            high: if self.high >= price {
                self.high
            } else {
                price
            },
            low: if self.low <= price {
                self.low
            } else {
                price
            },
            close: price,
            volume: self.volume,
        }
    }
}

/// The start of the bucket of width `width` that holds the instant `at`.
pub open spec fn spec_bucket_start(at: i64, width: i64) -> int {
    at - (at as int % width as int)
}

/// The start of the bucket that holds `at`, or `None` where it lies below
/// the range of instants.
pub fn bucket_start(at: i64, width: i64) -> (b: Option<i64>)
    requires
        width > 0,
    ensures
        match b {
            Some(s) => s == spec_bucket_start(at, width),
            None => spec_bucket_start(at, width) < i64::MIN,
        },
        at >= 0 ==> b is Some,
{
    if at >= 0 {
        Some(at - at % width)
    } else {
        // Below zero the bucket is found from the distance to -1.
        let n = -(at + 1);
        let r = n % width;
        let down = width - 1 - r;
        proof {
            let q = n as int / width as int;
            lemma_fundamental_div_mod(n as int, width as int);
            assert(at as int == (-(q + 1)) * width + down) by (nonlinear_arith)
                requires
                    n as int == width * q + r,
                    at as int == -(n as int) - 1,
                    down as int == width - 1 - r,
            ;
            lemma_fundamental_div_mod_converse(at as int, width as int, -(q + 1), down as int);
        }
        at.checked_sub(down)
    }
}

/// The key of a candle: its asset and the start of its bucket.
pub type CandleKey = (u128, i64);

/// All candles, one per asset and bucket.
#[derive(Debug)]
pub struct PriceStore {
    candles: Vec<PriceCandle>,
}

/// Whether one of the candles lies under the key.
spec fn known(cs: Seq<PriceCandle>, k: CandleKey) -> bool {
    exists|i: int| 0 <= i < cs.len() && #[trigger] key_of(cs[i]) == k
}

/// The position of the candle under the key.
spec fn position(cs: Seq<PriceCandle>, k: CandleKey) -> int {
    choose|i: int| 0 <= i < cs.len() && #[trigger] key_of(cs[i]) == k
}

/// The key under which a candle is stored.
pub open spec fn key_of(c: PriceCandle) -> CandleKey {
    (c.asset, c.bucket)
}

impl View for PriceStore {
    type V = Map<CandleKey, PriceCandle>;

    closed spec fn view(&self) -> Map<CandleKey, PriceCandle> {
        Map::new(
            |k: CandleKey| known(self.candles@, k),
            |k: CandleKey| self.candles@[position(self.candles@, k)],
        )
    }
}

/// Whether `bucket` is the latest bucket of `asset` that starts at or
/// before `at`.
pub open spec fn is_latest(m: Map<CandleKey, PriceCandle>, asset: u128, at: i64, bucket: i64)
    -> bool {
    &&& m.dom().contains((asset, bucket))
    &&& bucket <= at
    &&& forall|b: i64| #[trigger] m.dom().contains((asset, b)) && b <= at ==> b <= bucket
}

/// The close of the latest candle of `asset` at or before `at`, if the
/// asset has one.
pub open spec fn spec_price_at(m: Map<CandleKey, PriceCandle>, asset: u128, at: i64) -> Option<
    i64,
> {
    if exists|b: i64| is_latest(m, asset, at, b) {
        Some(m[(asset, choose|b: i64| is_latest(m, asset, at, b))].close)
    } else {
        None
    }
}

/// The candle stored for a tick: created by the first tick of its bucket,
/// widened by every further one.
pub open spec fn spec_upserted(
    m: Map<CandleKey, PriceCandle>,
    asset: u128,
    bucket: i64,
    price: i64,
    volume: Option<u64>,
) -> PriceCandle {
    if m.dom().contains((asset, bucket)) {
        m[(asset, bucket)].spec_absorb(price)
    } else {
        PriceCandle::spec_first(asset, bucket, price, volume)
    }
}

impl PriceStore {
    /// The invariant: one candle per key, stored under its own key, and
    /// every candle sound.
    pub closed spec fn wf(&self) -> bool {
        &&& forall|i: int, j: int|
            0 <= i < j < self.candles@.len() ==> key_of(self.candles@[i]) != key_of(
                self.candles@[j],
            )
        &&& forall|i: int| 0 <= i < self.candles@.len() ==> (#[trigger] self.candles@[i]).sound()
    }

    /// In a well-formed store every candle is sound and lies under its key.
    pub proof fn lemma_candles_sound(&self, k: CandleKey)
        requires
            self.wf(),
            self@.dom().contains(k),
        ensures
            self@[k].sound(),
            key_of(self@[k]) == k,
    {
    }

    /// A store without candles.
    pub fn new() -> (s: PriceStore)
        ensures
            s.wf(),
            s@ == Map::<CandleKey, PriceCandle>::empty(),
    {
        let s = PriceStore { candles: Vec::new() };
        s
    }

    /// In a well-formed store a key names one candle only.
    proof fn lemma_position(&self, i: int)
        requires
            self.wf(),
            0 <= i < self.candles@.len(),
        ensures
            known(self.candles@, key_of(self.candles@[i])),
            position(self.candles@, key_of(self.candles@[i])) == i,
    {
    }

    /// The position of the candle of `asset` for `bucket`.
    fn find(&self, asset: u128, bucket: i64) -> (r: Option<usize>)
        requires
            self.wf(),
        ensures
            match r {
                Some(i) => i < self.candles@.len() && known(self.candles@, (asset, bucket))
                    && position(self.candles@, (asset, bucket)) == i,
                None => !known(self.candles@, (asset, bucket)),
            },
    {
        let mut i: usize = 0;
        while i < self.candles.len()
            invariant
                self.wf(),
                i <= self.candles@.len(),
                forall|j: int| 0 <= j < i ==> key_of(self.candles@[j]) != (asset, bucket),
            decreases self.candles@.len() - i,
        {
            if self.candles[i].asset == asset && self.candles[i].bucket == bucket {
                proof {
                    self.lemma_position(i as int);
                }
                return Some(i);
            }
            i += 1;
        }
        None
    }

    /// The candle of `asset` for the bucket that starts at `bucket`.
    pub fn get(&self, asset: u128, bucket: i64) -> (c: Option<PriceCandle>)
        requires
            self.wf(),
        ensures
            match c {
                Some(v) => self@.dom().contains((asset, bucket)) && self@[(asset, bucket)] == v,
                None => !self@.dom().contains((asset, bucket)),
            },
    {
        match self.find(asset, bucket) {
            Some(i) => Some(self.candles[i]),
            None => None,
        }
    }

    /// Puts `c` under its key, in place of what was there.
    fn store(&mut self, c: PriceCandle)
        requires
            old(self).wf(),
            c.sound(),
        ensures
            final(self).wf(),
            final(self)@ == old(self)@.insert(key_of(c), c),
    {
        let ghost cs0 = self.candles@;
        let ghost key = key_of(c);
        match self.find(c.asset, c.bucket) {
            Some(i) => {
                self.candles.set(i, c);
                proof {
                    let cs1 = self.candles@;
                    assert forall|j: int| 0 <= j < cs1.len() implies key_of(cs1[j]) == key_of(
                        cs0[j],
                    ) by {}
                    assert forall|k: CandleKey| known(cs1, k) implies cs1[position(cs1, k)] == (
                    if k == key {
                        c
                    } else {
                        cs0[position(cs0, k)]
                    }) by {}
                }
            },
            None => {
                self.candles.push(c);
                proof {
                    let cs1 = self.candles@;
                    let n = cs0.len() as int;
                    assert(key_of(cs1[n]) == key);
                    assert forall|k: CandleKey| known(cs1, k) == (known(cs0, k) || k == key) by {
                        if known(cs0, k) {
                            assert(key_of(cs1[position(cs0, k)]) == k);
                        }
                    }
                    assert forall|k: CandleKey| known(cs1, k) implies cs1[position(cs1, k)] == (
                    if k == key {
                        c
                    } else {
                        cs0[position(cs0, k)]
                    }) by {}
                }
            },
        }
    }

    /// Loads a candle as it is, in place of the one of its asset and
    /// bucket. Refused with `Validation` where the candle is not sound; a
    /// refusal changes nothing.
    pub fn put(&mut self, c: PriceCandle) -> (res: Result<(), AppError>)
        requires
            old(self).wf(),
        ensures
            final(self).wf(),
            match res {
                Ok(()) => c.sound() && final(self)@ == old(self)@.insert(key_of(c), c),
                Err(e) => !c.sound() && e.spec_kind() == ErrorKind::Validation && *final(self)
                    == *old(self),
            },
    {
        if !(0 < c.low && c.low <= c.open && c.open <= c.high && c.low <= c.close && c.close
            <= c.high) {
            return Err(AppError::Validation("Candle prices are inconsistent".to_owned()));
        }
        self.store(c);
        Ok(())
    }

    /// Stores a tick: creates the candle of its bucket, or widens the one
    /// that exists. Refused with `Validation` where the price is not
    /// positive; a refusal changes nothing. Returns the stored candle.
    pub fn upsert(&mut self, asset: u128, bucket: i64, price: i64, volume: Option<u64>) -> (res:
        Result<PriceCandle, AppError>)
        requires
            old(self).wf(),
        ensures
            final(self).wf(),
            match res {
                Ok(c) => {
                    &&& price > 0
                    &&& c == spec_upserted(old(self)@, asset, bucket, price, volume)
                    &&& final(self)@ == old(self)@.insert((asset, bucket), c)
                },
                Err(e) => {
                    &&& price <= 0
                    &&& e.spec_kind() == ErrorKind::Validation
                    &&& *final(self) == *old(self)
                },
            },
    {
        if price <= 0 {
            return Err(AppError::Validation("Price must be positive".to_owned()));
        }
        let c = match self.get(asset, bucket) {
            Some(old) => {
                old.absorb(price)
            },
            None => PriceCandle::first(asset, bucket, price, volume),
        };
        self.store(c);
        Ok(c)
    }

    /// The candles of `asset` whose buckets start from `from` up to `to`,
    /// oldest first.
    pub fn window(&self, asset: u128, from: i64, to: i64) -> (out: Vec<PriceCandle>)
        requires
            self.wf(),
        ensures
            forall|i: int, j: int| 0 <= i < j < out@.len() ==> out@[i].bucket < out@[j].bucket,
            forall|i: int|
                0 <= i < out@.len() ==> (#[trigger] out@[i]).asset == asset && from
                    <= out@[i].bucket <= to && self@.dom().contains((asset, out@[i].bucket))
                    && self@[(asset, out@[i].bucket)] == out@[i],
            forall|b: i64|
                from <= b <= to && #[trigger] self@.dom().contains((asset, b)) ==> out@.contains(
                    self@[(asset, b)],
                ),
    {
        let mut out: Vec<PriceCandle> = Vec::new();
        let mut i: usize = 0;
        while i < self.candles.len()
            invariant
                self.wf(),
                i <= self.candles@.len(),
                forall|a: int, b: int| 0 <= a < b < out@.len() ==> out@[a].bucket < out@[b].bucket,
                forall|k: int|
                    0 <= k < out@.len() ==> (#[trigger] out@[k]).asset == asset && from
                        <= out@[k].bucket <= to && exists|j: int|
                        0 <= j < i && self.candles@[j] == out@[k],
                forall|j: int|
                    0 <= j < i && self.candles@[j].asset == asset && from
                        <= self.candles@[j].bucket <= to ==> out@.contains(
                        #[trigger] self.candles@[j],
                    ),
            decreases self.candles@.len() - i,
        {
            let c = self.candles[i];
            if c.asset == asset && from <= c.bucket && c.bucket <= to {
                let mut p: usize = 0;
                while p < out.len() && out[p].bucket < c.bucket
                    invariant
                        p <= out@.len(),
                        forall|k: int| 0 <= k < p ==> out@[k].bucket < c.bucket,
                    decreases out@.len() - p,
                {
                    p += 1;
                }
                let ghost before = out@;
                out.insert(p, c);
                proof {
                    let after = out@;
                    assert forall|j: int|
                        0 <= j < i + 1 && self.candles@[j].asset == asset && from
                            <= self.candles@[j].bucket <= to implies after.contains(
                        #[trigger] self.candles@[j],
                    ) by {
                        if j < i {
                            let k = choose|k: int|
                                0 <= k < before.len() && before[k] == self.candles@[j];
                            if k < p {
                                assert(after[k] == self.candles@[j]);
                            } else {
                                assert(after[k + 1] == self.candles@[j]);
                            }
                        } else {
                            assert(after[p as int] == self.candles@[j]);
                        }
                    }
                }
            }
            i += 1;
        }
        proof {
            let cs = self.candles@;
            assert forall|k: int| 0 <= k < out@.len() implies (#[trigger] out@[k]).asset == asset
                && from <= out@[k].bucket <= to && self@.dom().contains((asset, out@[k].bucket))
                && self@[(asset, out@[k].bucket)] == out@[k] by {
                let j = choose|j: int| 0 <= j < i && cs[j] == out@[k];
                self.lemma_position(j);
            }
        }
        out
    }

    /// The close of the latest candle of `asset` that starts at or before
    /// `at`; `None` where the asset has no candle by then.
    pub fn price_at(&self, asset: u128, at: i64) -> (p: Option<i64>)
        requires
            self.wf(),
        ensures
            p == spec_price_at(self@, asset, at),
            p matches Some(v) ==> v > 0,
    {
        let mut best: Option<usize> = None;
        let mut i: usize = 0;
        while i < self.candles.len()
            invariant
                self.wf(),
                i <= self.candles@.len(),
                match best {
                    Some(b) => b < i && self.candles@[b as int].asset == asset
                        && self.candles@[b as int].bucket <= at && forall|j: int|
                        0 <= j < i && self.candles@[j].asset == asset && self.candles@[j].bucket
                            <= at ==> self.candles@[j].bucket <= self.candles@[b as int].bucket,
                    None => forall|j: int|
                        0 <= j < i ==> !(self.candles@[j].asset == asset
                            && self.candles@[j].bucket <= at),
                },
            decreases self.candles@.len() - i,
        {
            let c = self.candles[i];
            if c.asset == asset && c.bucket <= at {
                match best {
                    Some(b) => {
                        if self.candles[b].bucket < c.bucket {
                            best = Some(i);
                        }
                    },
                    None => {
                        best = Some(i);
                    },
                }
            }
            i += 1;
        }
        let ghost cs = self.candles@;
        match best {
            Some(b) => {
                proof {
                    let top = cs[b as int].bucket;
                    self.lemma_position(b as int);
                    assert(is_latest(self@, asset, at, top));
                }
                Some(self.candles[b].close)
            },
            None => {
                None
            },
        }
    }
}

} // verus!
