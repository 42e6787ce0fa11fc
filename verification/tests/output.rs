use orderbook_rust::alert::{AlertEngine, AlertLevel};
use orderbook_rust::amount::Amount;
use orderbook_rust::storage::{
    base_data_path, kind_directory, level_batch, level_columns, output_file, output_file_at,
    tick_batch, tick_columns, SnapshotScheduler, TickBuffer, TickData,
};

fn amount(x: f64) -> Amount {
    Amount { bits: x.to_bits() }
}

fn tick(n: i64, is_bid: bool) -> TickData {
    TickData {
        timestamp: 1000 + n,
        symbol: if n == 0 { "ethUsdt".to_string() } else { "BTCUSDT".to_string() },
        price: n,
        qty: amount(n as f64),
        is_bid,
    }
}

const DAY: i64 = 86_400;

#[test]
fn hourly_scheduler_fires_once_on_the_hour() {
    let mut s = SnapshotScheduler::new("1h");
    let nine = 20_000 * DAY + 9 * 3600;
    assert!(!s.should_trigger(nine - 1));
    assert!(s.should_trigger(nine));
    assert!(!s.should_trigger(nine + 30));
    assert!(!s.should_trigger(nine + 60));
    assert!(!s.should_trigger(nine + 3599));
    assert!(s.should_trigger(nine + 3600));
}

#[test]
fn scheduler_intervals_count_from_midnight() {
    let intervals =
        [("15m", 15), ("30m", 30), ("1h", 60), ("2h", 120), ("4h", 240), ("12h", 720), ("7d", 60)];
    for (name, minutes) in intervals {
        let mut s = SnapshotScheduler::new(name);
        let mut fired = Vec::new();
        for minute in 0..1440 {
            if s.should_trigger(minute * 60) {
                fired.push(minute);
            }
        }
        let expected: Vec<i64> = (0..1440).filter(|m| m % minutes == 0).collect();
        assert_eq!(fired, expected);
        assert!(s.should_trigger(DAY));
    }
}

#[test]
fn scheduler_reads_times_before_the_epoch() {
    let mut s = SnapshotScheduler::new("12h");
    assert!(!s.should_trigger(-1));
    assert!(s.should_trigger(-DAY / 2));
    assert!(s.should_trigger(-DAY));
}

#[test]
fn scheduler_takes_hour_and_minute() {
    let mut s = SnapshotScheduler::new("30m");
    assert!(s.should_trigger_at(23, 30));
    assert!(!s.should_trigger_at(23, 30));
    assert!(!s.should_trigger_at(23, 31));
    assert!(s.should_trigger_at(0, 0));
}

#[test]
fn file_is_named_by_kind_symbol_and_time() {
    // 2015-05-15 00:00:00 UTC
    let file = output_file("./data", "btcusdt", true, 1_431_648_000);
    assert_eq!(file.directory, "./data/snapshots/BTCUSDT");
    assert_eq!(file.path, "./data/snapshots/BTCUSDT/book_snap_20150515-000000.parquet");
    assert!(!file.append);
    let file = output_file("/d", "BTCUSDT", false, 1_431_648_000 + 3661);
    assert_eq!(file.directory, "/d/incremental/BTCUSDT");
    assert_eq!(file.path, "/d/incremental/BTCUSDT/tick_diff_20150515-010101.parquet");
    assert!(file.append);
}

#[test]
fn file_for_folder_and_stamp() {
    let file = output_file_at("b", "f", false, "s");
    assert_eq!(file.directory, "b/incremental/f");
    assert_eq!(file.path, "b/incremental/f/tick_diff_s.parquet");
    assert_eq!(kind_directory("b", true), "b/snapshots");
    assert_eq!(kind_directory("b", false), "b/incremental");
}

#[test]
fn level_rows_share_their_time() {
    let c = level_columns(42, &vec![(1, amount(0.5)), (2, amount(1.5))], &vec![(3, amount(2.5))]);
    assert_eq!(c.timestamps, vec![42, 42, 42]);
    assert_eq!(c.prices, vec![1, 2, 3]);
    assert_eq!(c.quantities, vec![amount(0.5), amount(1.5), amount(2.5)]);
    assert_eq!(c.sides, vec!["BID", "BID", "ASK"]);
}

#[test]
fn empty_book_gives_no_batch() {
    assert!(level_batch("s", 1, &vec![], &vec![], "b", true, 0).is_none());
    let batch = level_batch("s", 1, &vec![], &vec![(3, amount(1.0))], "b", true, 0).unwrap();
    assert_eq!(batch.file.path, "b/snapshots/S/book_snap_19700101-000000.parquet");
    assert_eq!(batch.columns.sides, vec!["ASK"]);
    assert!(level_batch("s", 1, &vec![(3, amount(1.0))], &vec![], "b", true, 0).is_some());
}

#[test]
fn tick_rows_keep_their_times_and_put_bids_first() {
    let ticks = vec![tick(0, false), tick(1, true), tick(2, false), tick(3, true)];
    let c = tick_columns(&ticks);
    assert_eq!(c.timestamps, vec![1001, 1003, 1000, 1002]);
    assert_eq!(c.prices, vec![1, 3, 0, 2]);
    assert_eq!(c.sides, vec!["BID", "BID", "ASK", "ASK"]);
    assert_eq!(c.quantities, vec![amount(1.0), amount(3.0), amount(0.0), amount(2.0)]);
}

#[test]
fn ticks_go_to_the_folder_of_the_first() {
    let batch = tick_batch(&vec![tick(0, true), tick(1, true)], "b", 0).unwrap();
    assert_eq!(batch.file.directory, "b/incremental/ETHUSDT");
    assert!(batch.file.append);
    assert_eq!(batch.columns.prices, vec![0, 1]);
    assert!(tick_batch(&Vec::new(), "b", 0).is_none());
}

#[test]
fn buffer_is_flushed_after_ten_seconds() {
    let mut buffer = TickBuffer::new(100);
    assert!(buffer.push(tick(0, true), 100).is_none());
    assert!(buffer.push(tick(1, false), 109).is_none());
    let flushed = buffer.push(tick(2, true), 110).unwrap();
    let prices: Vec<i64> = flushed.iter().map(|t| t.price).collect();
    assert_eq!(prices, vec![0, 1, 2]);
    assert!(buffer.ticks.is_empty());
    assert_eq!(buffer.last_flush_time, 110);
    assert!(buffer.push(tick(3, true), 119).is_none());
}

#[test]
fn buffer_is_flushed_when_full() {
    let mut buffer = TickBuffer::new(0);
    for n in 0..9_999 {
        assert!(buffer.push(tick(n, n % 2 == 0), 5).is_none());
    }
    let flushed = buffer.push(tick(9_999, true), 5).unwrap();
    assert_eq!(flushed.len(), 10_000);
    assert_eq!(tick_columns(&flushed).prices.len(), 10_000);
    assert!(buffer.ticks.is_empty());
    assert_eq!(buffer.last_flush_time, 5);
}

#[test]
fn tick_followed_by_silence_is_flushed() {
    let mut buffer = TickBuffer::new(100);
    assert!(buffer.push(tick(7, true), 101).is_none());
    assert!(buffer.poll(109).is_none());
    let flushed = buffer.poll(110).unwrap();
    assert_eq!(flushed.len(), 1);
    assert_eq!(flushed[0].price, 7);
    assert!(buffer.ticks.is_empty());
    assert_eq!(buffer.last_flush_time, 110);
}

#[test]
fn empty_buffer_has_nothing_to_flush() {
    let mut buffer = TickBuffer::new(100);
    assert!(buffer.poll(500).is_none());
    assert_eq!(buffer.last_flush_time, 100);
    assert!(buffer.finish().is_empty());
}

#[test]
fn waiting_ticks_are_handed_out_at_the_close() {
    let mut buffer = TickBuffer::new(100);
    assert!(buffer.push(tick(1, true), 101).is_none());
    assert!(buffer.push(tick(2, false), 102).is_none());
    let prices: Vec<i64> = buffer.finish().iter().map(|t| t.price).collect();
    assert_eq!(prices, vec![1, 2]);
}

#[test]
fn data_is_kept_where_the_user_says() {
    assert_eq!(base_data_path("ubuntu"), "/home/ubuntu/data");
    assert_eq!(base_data_path("root"), "./data");
    assert_eq!(base_data_path(""), "./data");
}

#[test]
fn levels_have_their_names() {
    assert_eq!(AlertLevel::INFO.as_str(), "INFO");
    assert_eq!(AlertLevel::WARN.as_str(), "WARN");
    assert_eq!(AlertLevel::CRITICAL.as_str(), "CRITICAL");
}

#[test]
fn unset_channels_are_disabled() {
    let none = AlertEngine::new(None, None, None);
    let d = none.compose(AlertLevel::INFO, "SYSTEM", "t", "m");
    assert!(d.telegram.is_none() && d.slack.is_none());
    let half = AlertEngine::new(Some("token"), None, Some("https://hook"));
    let d = half.compose(AlertLevel::INFO, "SYSTEM", "t", "m");
    assert!(d.telegram.is_none());
    assert_eq!(d.slack.unwrap().url, "https://hook");
    let other = AlertEngine::new(None, Some("chat"), None);
    assert!(other.compose(AlertLevel::INFO, "SYSTEM", "t", "m").telegram.is_none());
}

#[test]
fn alert_goes_to_both_channels() {
    let engine = AlertEngine::new(Some("tok"), Some("42"), Some("https://hook"));
    let d = engine.trigger(AlertLevel::CRITICAL, "WSS", "gone", 1_431_648_000, 500_000_000);
    let telegram = d.telegram.unwrap();
    assert_eq!(telegram.url, "https://api.telegram.org/bottok/sendMessage");
    assert_eq!(telegram.chat_id, "42");
    assert_eq!(
        telegram.text,
        "[CRITICAL] HFT Engine Alert\nLevel: WSS\nTime: 2015-05-15T00:00:00.500+00:00\nContent: gone"
    );
    let slack = d.slack.unwrap();
    assert_eq!(slack.url, "https://hook");
    assert_eq!(
        slack.text,
        "*[CRITICAL] HFT Engine Alert*\nLevel: WSS\nTime: 2015-05-15T00:00:00.500+00:00\nContent: gone"
    );
}

#[test]
fn no_tick_is_lost_over_several_flushes() {
    let mut buffer = TickBuffer::new(0);
    let mut handed_out: Vec<i64> = Vec::new();
    for n in 0..100 {
        if let Some(flushed) = buffer.push(tick(n, n % 3 == 0), n) {
            handed_out.extend(flushed.iter().map(|t| t.price));
        }
        if n % 7 == 0 {
            if let Some(flushed) = buffer.poll(n + 4) {
                handed_out.extend(flushed.iter().map(|t| t.price));
            }
        }
    }
    handed_out.extend(buffer.finish().iter().map(|t| t.price));
    assert_eq!(handed_out, (0..100).collect::<Vec<i64>>());
}

#[test]
fn leap_second_is_announced() {
    let engine = AlertEngine::new(None, None, Some("u"));
    // 2016-12-31 23:59:59 UTC, into the leap second.
    let d = engine.trigger(AlertLevel::WARN, "p", "m", 1_483_228_799, 1_000_000_000);
    assert_eq!(
        d.slack.unwrap().text,
        "*[WARN] HFT Engine Alert*\nLevel: p\nTime: 2016-12-31T23:59:60+00:00\nContent: m"
    );
}

#[test]
fn calendar_reaches_its_first_and_last_second() {
    let first = output_file("b", "s", true, -8_334_601_228_800);
    assert!(first.path.ends_with("0101-000000.parquet"));
    let last = output_file("b", "s", true, 8_210_266_876_799);
    assert!(last.path.ends_with("1231-235959.parquet"));
}
