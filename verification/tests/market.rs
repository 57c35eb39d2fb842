use contest_engine::error::ErrorKind;
use contest_engine::ingest::{
    instrument_token, AssetRecord, MarketDataIngester, Tick, TickOutcome,
};
use contest_engine::market::{bucket_start, PriceCandle, PriceStore};

fn ingester() -> MarketDataIngester {
    let mut m = MarketDataIngester::new(60);
    let assets = vec![
        AssetRecord { id: 1, symbol: "NIFTY50".to_string() },
        AssetRecord { id: 2, symbol: "INFY".to_string() },
        AssetRecord { id: 3, symbol: "UNLISTED".to_string() },
    ];
    assert_eq!(m.load_asset_mappings(&assets), 2);
    m
}

fn tick(instrument_id: u32, price: i64, observed_at: i64) -> Tick {
    Tick { instrument_id, price, volume: Some(5), observed_at }
}

#[test]
fn first_tick_opens_the_candle() {
    let mut m = ingester();
    let out = m.process_tick(tick(256265, 100, 125));
    let expected = PriceCandle {
        asset: 1,
        bucket: 120,
        open: 100,
        high: 100,
        low: 100,
        close: 100,
        volume: Some(5),
    };
    assert_eq!(out, TickOutcome::Stored(expected));
    assert_eq!(m.store().get(1, 120), Some(expected));
    assert_eq!(m.store().get(1, 60), None);
}

#[test]
fn out_of_order_ticks_give_the_same_extremes() {
    let mut a = ingester();
    a.process_tick(tick(256265, 100, 121));
    a.process_tick(tick(256265, 90, 122));
    let mut b = ingester();
    b.process_tick(tick(256265, 90, 122));
    b.process_tick(tick(256265, 100, 121));
    let ca = a.store().get(1, 120).unwrap();
    let cb = b.store().get(1, 120).unwrap();
    assert_eq!((ca.high, ca.low), (100, 90));
    assert_eq!((cb.high, cb.low), (100, 90));
    // The open is that of the first arrival, the close that of the last.
    assert_eq!((ca.open, ca.close), (100, 90));
    assert_eq!((cb.open, cb.close), (90, 100));
}

#[test]
fn repeated_tick_does_not_move_the_extremes() {
    let mut m = ingester();
    m.process_tick(tick(256265, 100, 121));
    m.process_tick(tick(256265, 90, 122));
    let once = m.store().get(1, 120).unwrap();
    m.process_tick(tick(256265, 90, 122));
    let twice = m.store().get(1, 120).unwrap();
    assert_eq!((once.high, once.low), (twice.high, twice.low));
}

#[test]
fn later_ticks_keep_open_and_volume() {
    let mut m = ingester();
    m.process_tick(Tick { instrument_id: 408065, price: 50, volume: Some(7), observed_at: 0 });
    let out =
        m.process_tick(Tick { instrument_id: 408065, price: 70, volume: Some(9), observed_at: 59 });
    assert_eq!(
        out,
        TickOutcome::Stored(PriceCandle {
            asset: 2,
            bucket: 0,
            open: 50,
            high: 70,
            low: 50,
            close: 70,
            volume: Some(7)
        })
    );
}

#[test]
fn ticks_of_different_buckets_and_assets_do_not_mix() {
    let mut m = ingester();
    m.process_tick(tick(256265, 100, 59));
    m.process_tick(tick(256265, 200, 60));
    m.process_tick(tick(408065, 300, 60));
    assert_eq!(m.store().get(1, 0).unwrap().close, 100);
    assert_eq!(m.store().get(1, 60).unwrap().close, 200);
    assert_eq!(m.store().get(2, 60).unwrap().close, 300);
}

#[test]
fn unmapped_instrument_is_dropped() {
    let mut m = ingester();
    assert_eq!(m.process_tick(tick(999, 100, 125)), TickOutcome::Unmapped);
    assert_eq!(m.store().get(1, 120), None);
    // The stream goes on.
    assert!(matches!(m.process_tick(tick(256265, 100, 125)), TickOutcome::Stored(_)));
}

#[test]
fn malformed_tick_is_dropped() {
    let mut m = ingester();
    assert_eq!(m.process_tick(tick(256265, 0, 125)), TickOutcome::Malformed);
    assert_eq!(m.process_tick(tick(256265, -5, 125)), TickOutcome::Malformed);
    assert_eq!(m.process_tick(tick(256265, 5, i64::MIN)), TickOutcome::Malformed);
    assert_eq!(m.store().get(1, 120), None);
}

#[test]
fn asset_mappings_follow_the_symbols() {
    let m = ingester();
    assert_eq!(m.asset_of(256265), Some(1));
    assert_eq!(m.asset_of(408065), Some(2));
    assert_eq!(m.asset_of(1), None);
    assert_eq!(instrument_token(&"NIFTY50".to_string()), Some(256265));
    assert_eq!(instrument_token(&"INFY".to_string()), Some(408065));
    assert_eq!(instrument_token(&"nifty50".to_string()), None);
}

#[test]
fn later_mapping_of_a_symbol_replaces_the_earlier() {
    let mut m = MarketDataIngester::new(60);
    let assets = vec![
        AssetRecord { id: 1, symbol: "INFY".to_string() },
        AssetRecord { id: 9, symbol: "INFY".to_string() },
    ];
    assert_eq!(m.load_asset_mappings(&assets), 1);
    assert_eq!(m.asset_of(408065), Some(9));
}

#[test]
fn width_that_is_not_positive_becomes_a_minute() {
    let mut m = MarketDataIngester::new(0);
    m.load_asset_mappings(&vec![AssetRecord { id: 1, symbol: "INFY".to_string() }]);
    assert!(matches!(
        m.process_tick(tick(408065, 10, 119)),
        TickOutcome::Stored(PriceCandle { bucket: 60, .. })
    ));
}

#[test]
fn bucket_start_rounds_down() {
    assert_eq!(bucket_start(0, 60), Some(0));
    assert_eq!(bucket_start(59, 60), Some(0));
    assert_eq!(bucket_start(60, 60), Some(60));
    assert_eq!(bucket_start(125, 60), Some(120));
    assert_eq!(bucket_start(-1, 60), Some(-60));
    assert_eq!(bucket_start(-60, 60), Some(-60));
    assert_eq!(bucket_start(-61, 60), Some(-120));
    assert_eq!(bucket_start(i64::MAX, 1), Some(i64::MAX));
    assert_eq!(bucket_start(i64::MIN, 1), Some(i64::MIN));
    assert_eq!(bucket_start(i64::MIN, 3), None);
}

#[test]
fn upsert_refuses_prices_that_are_not_positive() {
    let mut s = PriceStore::new();
    assert_eq!(s.upsert(1, 0, 0, None).unwrap_err().kind(), ErrorKind::Validation);
    assert_eq!(s.get(1, 0), None);
}

#[test]
fn price_at_is_the_latest_close_at_or_before() {
    let mut s = PriceStore::new();
    s.upsert(1, 120, 30, None).unwrap();
    s.upsert(1, 0, 10, None).unwrap();
    s.upsert(1, 60, 20, None).unwrap();
    s.upsert(1, 60, 25, None).unwrap();
    s.upsert(2, 90, 99, None).unwrap();
    assert_eq!(s.price_at(1, -1), None);
    assert_eq!(s.price_at(1, 0), Some(10));
    assert_eq!(s.price_at(1, 59), Some(10));
    assert_eq!(s.price_at(1, 60), Some(25));
    assert_eq!(s.price_at(1, 119), Some(25));
    assert_eq!(s.price_at(1, 1_000), Some(30));
    assert_eq!(s.price_at(2, 89), None);
    assert_eq!(s.price_at(3, 1_000), None);
}

#[test]
fn window_is_in_range_and_oldest_first() {
    let mut s = PriceStore::new();
    for (bucket, price) in [(180i64, 4i64), (60, 2), (240, 5), (0, 1), (120, 3)] {
        s.upsert(1, bucket, price, None).unwrap();
    }
    s.upsert(2, 120, 77, None).unwrap();
    let w = s.window(1, 60, 180);
    let seen: Vec<(i64, i64)> = w.iter().map(|c| (c.bucket, c.close)).collect();
    assert_eq!(seen, vec![(60, 2), (120, 3), (180, 4)]);
    assert!(s.window(1, 181, 239).is_empty());
    assert!(s.window(3, 0, 1_000).is_empty());
    assert_eq!(s.window(1, i64::MIN, i64::MAX).len(), 5);
}

#[test]
fn candle_first_and_absorb() {
    let c = PriceCandle::first(1, 0, 100, None);
    assert_eq!((c.open, c.high, c.low, c.close), (100, 100, 100, 100));
    let c = c.absorb(120).absorb(80).absorb(90);
    assert_eq!((c.open, c.high, c.low, c.close), (100, 120, 80, 90));
}
