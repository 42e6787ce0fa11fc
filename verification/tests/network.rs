use orderbook_rust::clock::{ClockSync, SpeedMeter, SpeedReport};
use orderbook_rust::connection::{
    exchange_info_url, exhausted_text, snapshot_url, stream_url, stream_url_of, FetchOutcome, FetchStep, Reconnect,
    ReconnectStep, SnapshotFetch,
};
use orderbook_rust::model::NetworkConfig;

fn network(round: i64) -> NetworkConfig {
    NetworkConfig { latency_threshold: 100, base_network_floor: 25, pkt_loop_threshold: round }
}

#[test]
fn addresses_of_the_exchange() {
    assert_eq!(
        snapshot_url("BTCUSDT"),
        "https://fapi.binance.com/fapi/v1/depth?symbol=BTCUSDT&limit=100"
    );
    assert_eq!(exchange_info_url(), "https://fapi.binance.com/fapi/v1/exchangeInfo");
    assert_eq!(stream_url("BTCusdt"), "wss://fstream.binance.com/ws/btcusdt@depth@100ms");
    assert_eq!(stream_url_of("X"), "wss://fstream.binance.com/ws/X@depth@100ms");
}

#[test]
fn reconnects_wait_twice_as_long_each_time() {
    let mut r = Reconnect::new();
    let mut waits = Vec::new();
    loop {
        match r.failed() {
            ReconnectStep::RetryAfter(secs) => waits.push(secs),
            ReconnectStep::GiveUp => break,
        }
    }
    assert_eq!(waits, vec![2, 4, 8, 16, 32, 64, 128, 256, 512]);
    assert_eq!(r.failures, 10);
    r.connected();
    assert_eq!(r.failed(), ReconnectStep::RetryAfter(2));
}

#[test]
fn snapshot_is_asked_for_five_times() {
    let mut fetch = SnapshotFetch::new();
    for wait in [1, 2, 4, 8] {
        assert_eq!(fetch.next(FetchOutcome::Refused), FetchStep::RetryAfter(wait));
    }
    assert_eq!(fetch.next(FetchOutcome::Refused), FetchStep::Exhausted);
    assert_eq!(
        exhausted_text("BTCUSDT"),
        "BTCUSDT trying 5 times but still failed to get snapshots."
    );
}

#[test]
fn answered_request_is_not_repeated() {
    let mut fetch = SnapshotFetch::new();
    assert_eq!(fetch.next(FetchOutcome::Refused), FetchStep::RetryAfter(1));
    assert_eq!(fetch.next(FetchOutcome::Delivered), FetchStep::Finish);
    assert_eq!(fetch.next(FetchOutcome::Unreadable), FetchStep::Fail);
}

#[test]
fn clock_is_corrected_after_a_round() {
    let mut clock = ClockSync::new(&network(3));
    clock.count();
    assert_eq!(clock.observe(1000, 900), 100);
    clock.count();
    assert_eq!(clock.observe(2000, 1960), 40);
    clock.count();
    // The round ends: its least raw latency, 40, becomes the floor of 25.
    assert_eq!(clock.observe(3000, 2930), 55);
    assert_eq!(clock.offset, -15);
    assert_eq!((clock.messages, clock.min_raw_latency), (0, None));
    clock.count();
    assert_eq!(clock.observe(4000, 3960), 25);
}

#[test]
fn last_message_of_a_round_counts_for_it() {
    let mut clock = ClockSync::new(&network(1));
    clock.count();
    assert_eq!(clock.observe(500, 1000), 25);
    assert_eq!(clock.offset, 525);
}

#[test]
fn unreadable_messages_count_for_the_round() {
    let mut clock = ClockSync::new(&network(2));
    clock.count();
    clock.count();
    assert_eq!(clock.observe(10, 0), 25);
}

#[test]
fn extreme_clock_readings_do_not_overflow() {
    let mut clock = ClockSync::new(&network(1));
    clock.count();
    assert_eq!(clock.observe(i64::MAX, i64::MIN), 25);
    assert_eq!(clock.observe(i64::MIN, i64::MAX), 25 - 2 * (u64::MAX as i128));
}

#[test]
fn speed_is_reported_every_thousand() {
    let mut meter = SpeedMeter::new();
    for n in 1..1000u128 {
        assert_eq!(meter.record(n), None);
    }
    assert_eq!(
        meter.record(2500),
        Some(SpeedReport { average: (999 * 1000 / 2 + 2500) / 1000, longest: 2500, shortest: 1 })
    );
    assert!(meter.times.is_empty());
    assert_eq!(meter.record(7), None);
}
