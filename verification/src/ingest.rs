//! The market-data ingester: maps the instruments of a tick stream to
//! assets and aggregates their ticks into candles of a fixed width.

use std::collections::HashMap;
use vstd::prelude::*;
use vstd::std_specs::hash::*;
use crate::market::{
    CandleKey, PriceCandle, PriceStore, bucket_start, spec_bucket_start, spec_upserted,
};

verus! {

broadcast use vstd::std_specs::hash::group_hash_axioms;

/// One trade event of the stream.
#[derive(Clone, Copy, Debug, PartialEq, Eq)]
pub struct Tick {
    pub instrument_id: u32,
    pub price: i64,
    pub volume: Option<u64>,
    pub observed_at: i64,
}

/// An asset as the catalogue lists it.
#[derive(Clone, Debug, PartialEq, Eq)]
pub struct AssetRecord {
    pub id: u128,
    pub symbol: String,
}

/// What became of a tick.
#[derive(Clone, Copy, Debug, PartialEq, Eq)]
pub enum TickOutcome {
    /// The tick went into this candle.
    Stored(PriceCandle),
    /// No asset is mapped to the instrument: the tick was dropped.
    Unmapped,
    /// The price is not positive, or the instant has no bucket: dropped.
    Malformed,
}

/// The instrument token under which the stream reports a symbol.
pub open spec fn spec_instrument_token(symbol: Seq<char>) -> Option<u32> {
    if symbol == "NIFTY50"@ {
        Some(256265u32)
    } else if symbol == "INFY"@ {
        Some(408065u32)
    } else {
        None
    }
}

/// The instrument token under which the stream reports a symbol, for the
/// symbols that the stream carries.
pub fn instrument_token(symbol: &String) -> (t: Option<u32>)
    ensures
        t == spec_instrument_token(symbol@),
{
    if *symbol == "NIFTY50".to_owned() {
        Some(256265)
    } else if *symbol == "INFY".to_owned() {
        Some(408065)
    } else {
        None
    }
}

/// The table after the assets of a catalogue were mapped, in order: each
/// asset whose symbol the stream carries takes the token of its symbol.
pub open spec fn spec_mapped(table: Map<u32, u128>, assets: Seq<AssetRecord>) -> Map<u32, u128>
    decreases assets.len(),
{
    if assets.len() == 0 {
        table
    } else {
        let before = spec_mapped(table, assets.drop_last());
        match spec_instrument_token(assets.last().symbol@) {
            Some(t) => before.insert(t, assets.last().id),
            None => before,
        }
    }
}

/// The mathematical content of an ingester.
pub struct IngesterView {
    /// The asset of each mapped instrument.
    pub table: Map<u32, u128>,
    /// The width of a bucket.
    pub width: i64,
    /// The candles, by asset and bucket.
    pub candles: Map<CandleKey, PriceCandle>,
}

impl IngesterView {
    /// The invariant of the content: the width is positive and every
    /// candle lies under its own asset and bucket.
    pub open spec fn wf(self) -> bool {
        &&& self.width > 0
        &&& forall|k: CandleKey| #[trigger]
            self.candles.dom().contains(k) ==> self.candles[k].asset == k.0
                && self.candles[k].bucket == k.1
    }

    /// What becomes of a tick: dropped where its instrument is unmapped,
    /// its price not positive or its instant without a bucket; else stored
    /// in the candle of its asset and bucket.
    pub open spec fn outcome(self, tick: Tick) -> TickOutcome {
        if !self.table.contains_key(tick.instrument_id) {
            TickOutcome::Unmapped
        } else if tick.price <= 0 || spec_bucket_start(tick.observed_at, self.width) < i64::MIN {
            TickOutcome::Malformed
        } else {
            TickOutcome::Stored(
                spec_upserted(
                    self.candles,
                    self.table[tick.instrument_id],
                    spec_bucket_start(tick.observed_at, self.width) as i64,
                    tick.price,
                    tick.volume,
                ),
            )
        }
    }

    /// The state after a tick: a stored tick replaces the candle of its
    /// key, a dropped one changes nothing.
    pub open spec fn after(self, tick: Tick) -> IngesterView {
        match self.outcome(tick) {
            TickOutcome::Stored(c) => IngesterView {
                candles: self.candles.insert((c.asset, c.bucket), c),
                ..self
            },
            _ => self,
        }
    }
}

/// The ingester: the instrument table, the bucket width and the candles.
#[derive(Debug)]
pub struct MarketDataIngester {
    asset_tokens: HashMap<u32, u128>,
    bucket_width: i64,
    store: PriceStore,
}

impl View for MarketDataIngester {
    type V = IngesterView;

    closed spec fn view(&self) -> IngesterView {
        IngesterView {
            table: self.asset_tokens@,
            width: self.bucket_width,
            candles: self.store@,
        }
    }
}

impl MarketDataIngester {
    /// The invariant: the width is positive and the store well formed.
    pub closed spec fn wf(&self) -> bool {
        self.bucket_width > 0 && self.store.wf()
    }

    /// A well-formed ingester holds a well-formed store, whose candles are
    /// those of its content.
    pub proof fn lemma_store_wf(&self)
        requires
            self.wf(),
        ensures
            self.spec_store().wf(),
            self.spec_store()@ == self@.candles,
            self@.wf(),
    {
        assert forall|k: CandleKey| #[trigger]
            self@.candles.dom().contains(k) implies self@.candles[k].asset == k.0
            && self@.candles[k].bucket == k.1 by {
            self.store.lemma_candles_sound(k);
        }
    }

    /// The store of the candles.
    pub closed spec fn spec_store(&self) -> PriceStore {
        self.store
    }

    /// An ingester without mappings or candles. A width that is not
    /// positive is replaced by one minute.
    pub fn new(bucket_width: i64) -> (m: MarketDataIngester)
        ensures
            m.wf(),
            m@.table == Map::<u32, u128>::empty(),
            m@.candles == Map::<CandleKey, PriceCandle>::empty(),
            m@.width == if bucket_width > 0 {
                bucket_width
            } else {
                60i64
            },
    {
        MarketDataIngester {
            asset_tokens: HashMap::new(),
            bucket_width: if bucket_width > 0 {
                bucket_width
            } else {
                60
            },
            store: PriceStore::new(),
        }
    }

    /// Maps the assets of a catalogue to their instruments, in order, and
    /// returns the number of mapped instruments.
    pub fn load_asset_mappings(&mut self, assets: &Vec<AssetRecord>) -> (n: usize)
        requires
            old(self).wf(),
        ensures
            final(self).wf(),
            final(self)@ == (IngesterView {
                table: spec_mapped(old(self)@.table, assets@),
                ..old(self)@
            }),
            n == final(self)@.table.len(),
    {
        let mut i: usize = 0;
        while i < assets.len()
            invariant
                self.wf(),
                i <= assets@.len(),
                self.bucket_width == old(self).bucket_width,
                self.store == old(self).store,
                self.asset_tokens@ == spec_mapped(old(self).asset_tokens@, assets@.take(i as int)),
            decreases assets@.len() - i,
        {
            proof {
                assert(assets@.take(i + 1).drop_last() =~= assets@.take(i as int));
            }
            match instrument_token(&assets[i].symbol) {
                Some(t) => {
                    self.asset_tokens.insert(t, assets[i].id);
                },
                None => {},
            }
            i += 1;
        }
        proof {
            assert(assets@.take(i as int) =~= assets@);
        }
        self.asset_tokens.len()
    }

    /// The asset mapped to an instrument.
    pub fn asset_of(&self, instrument_id: u32) -> (a: Option<u128>)
        ensures
            a == if self@.table.contains_key(instrument_id) {
                Some(self@.table[instrument_id])
            } else {
                None
            },
    {
        match self.asset_tokens.get(&instrument_id) {
            Some(a) => Some(*a),
            None => None,
        }
    }

    /// The candles.
    pub fn store(&self) -> (s: &PriceStore)
        ensures
            *s == self.spec_store(),
    {
        &self.store
    }

    /// Takes one tick of the stream. A tick of an unmapped instrument, or a
    /// malformed one, is dropped and changes nothing; it never ends the
    /// stream. Any other goes into the candle of its asset and bucket.
    pub fn process_tick(&mut self, tick: Tick) -> (out: TickOutcome)
        requires
            old(self).wf(),
        ensures
            final(self).wf(),
            out == old(self)@.outcome(tick),
            final(self)@ == old(self)@.after(tick),
    {
        let asset = match self.asset_of(tick.instrument_id) {
            Some(a) => a,
            None => { return TickOutcome::Unmapped; },
        };
        let bucket = match bucket_start(tick.observed_at, self.bucket_width) {
            Some(b) => b,
            None => { return TickOutcome::Malformed; },
        };
        proof {
            if self.store@.dom().contains((asset, bucket)) {
                self.store.lemma_candles_sound((asset, bucket));
            }
        }
        match self.store.upsert(asset, bucket, tick.price, tick.volume) {
            Ok(c) => TickOutcome::Stored(c),
            Err(_) => TickOutcome::Malformed,
        }
    }
}

} // verus!
