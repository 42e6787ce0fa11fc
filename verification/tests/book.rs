use orderbook_rust::amount::Amount;
use orderbook_rust::book::{BookStatus, MonitorStep, OrderBook};
use orderbook_rust::model::BinanceDepthUpdate;

fn qty(x: f64) -> Amount {
    Amount { bits: x.to_bits() }
}

fn value(a: &Amount) -> f64 {
    f64::from_bits(a.bits)
}

fn update(first: i64, last: i64, prev: i64) -> BinanceDepthUpdate {
    BinanceDepthUpdate {
        event_type: "depthUpdate".to_string(),
        event_time: 0,
        transaction_time: 0,
        symbol: "BTCUSDT".to_string(),
        first_update_id: first,
        final_update_id: last,
        prev_final_update_id: prev,
        bids: Vec::new(),
        asks: Vec::new(),
    }
}

fn sample_book() -> OrderBook {
    let mut book = OrderBook::new(8);
    book.load_snapshot(
        100,
        &[
            ("90000.00000000", qty(1.5)),
            ("89999.00000000", qty(2.3)),
            ("89998.00000000", qty(5.0)),
        ],
        &[
            ("90001.00000000", qty(0.5)),
            ("90002.00000000", qty(1.1)),
            ("90003.00000000", qty(4.0)),
        ],
    );
    book
}

#[test]
fn price_text_becomes_fixed_point() {
    assert_eq!(OrderBook::fast_parse_price("90042.1234"), 9_004_212_340_000);
    assert_eq!(OrderBook::fast_parse_price("0.0988"), 9_880_000);
    assert_eq!(OrderBook::fast_parse_price("90000.10000000"), 9_000_010_000_000);
    assert_eq!(OrderBook::fast_parse_price("190004.0000000"), 19_000_400_000_000);
}

#[test]
fn price_without_point_is_scaled() {
    assert_eq!(OrderBook::fast_parse_price("7"), 700_000_000);
    assert_eq!(OrderBook::fast_parse_price(""), 0);
    assert_eq!(OrderBook::fast_parse_price("."), 0);
}

#[test]
fn price_is_cut_off_after_eight_decimals() {
    assert_eq!(OrderBook::fast_parse_price("1.123456789"), 112_345_678);
    assert_eq!(OrderBook::fast_parse_price("1.12345678999999"), 112_345_678);
    assert_eq!(
        OrderBook::fast_parse_price("1.5"),
        OrderBook::fast_parse_price("1.50000000")
    );
}

#[test]
fn price_skips_other_characters() {
    assert_eq!(OrderBook::fast_parse_price("-1,234.5"), 123_450_000_000);
    assert_eq!(OrderBook::fast_parse_price("1.2.3"), 123_000_000);
    assert_eq!(OrderBook::fast_parse_price("\u{20ac}12.\u{0663}5"), 1_250_000_000);
}

#[test]
fn largest_price_fits() {
    assert_eq!(OrderBook::fast_parse_price("92233720368.54775807"), i64::MAX);
}

#[test]
fn fresh_book_waits_for_a_snapshot() {
    let book = OrderBook::new(2);
    assert_eq!(book.status, BookStatus::WaitingForSnapshot);
    assert_eq!(book.last_update_id, 0);
    assert_eq!(book.last_snapshot_request_time, 0);
    assert!(book.bids.is_empty() && book.asks.is_empty());
    assert!(book.get_best_bid().is_none());
    assert!(book.get_best_ask().is_none());
    assert!(book.get_mid_price().is_none());
}

#[test]
fn snapshot_is_loaded() {
    let mut book = OrderBook::new(8);
    book.load_snapshot(
        165,
        &[("90000.10000000", qty(1.52)), ("89999.00000000", qty(0.23))],
        &[("90000.20000000", qty(0.11)), ("90001.50000000", qty(4.1))],
    );
    assert_eq!(book.status, BookStatus::Synced);
    assert_eq!(book.last_update_id, 165);
    let (bid, bid_qty) = book.get_best_bid().unwrap();
    assert_eq!((*bid, value(bid_qty)), (9_000_010_000_000, 1.52));
    let (ask, ask_qty) = book.get_best_ask().unwrap();
    assert_eq!((*ask, value(ask_qty)), (9_000_020_000_000, 0.11));
    assert_eq!(book.get_mid_price(), Some((9_000_010_000_000, 9_000_020_000_000)));
}

#[test]
fn snapshot_replaces_old_levels() {
    let mut book = sample_book();
    book.load_snapshot(200, &[("5", qty(1.0))], &[]);
    assert_eq!(book.bid_levels(), vec![(500_000_000, qty(1.0))]);
    assert!(book.ask_levels().is_empty());
    assert_eq!(book.last_update_id, 200);
}

#[test]
fn text_levels_update_insert_and_delete() {
    let mut book = sample_book();
    book.update_levels(
        &[
            ("90000.00000000", qty(2.88)),
            ("89999.50000000", qty(0.5)),
            ("89998.00000000", qty(0.0)),
        ],
        &[("90001.00000000", qty(0.0)), ("190004.0000000", qty(3.15))],
    );
    assert_eq!(
        book.bid_levels(),
        vec![
            (8_999_900_000_000, qty(2.3)),
            (8_999_950_000_000, qty(0.5)),
            (9_000_000_000_000, qty(2.88)),
        ]
    );
    assert_eq!(
        book.ask_levels(),
        vec![
            (9_000_200_000_000, qty(1.1)),
            (9_000_300_000_000, qty(4.0)),
            (19_000_400_000_000, qty(3.15)),
        ]
    );
}

#[test]
fn numeric_levels_update_insert_and_delete() {
    let mut book = sample_book();
    book.update_pure_numbers(
        &[
            (9_000_000_000_000, qty(2.88)),
            (8_999_950_000_000, qty(0.5)),
            (8_999_800_000_000, qty(0.0)),
        ],
        &[(9_000_100_000_000, qty(0.0)), (9_000_400_000_000, qty(3.15))],
    );
    assert_eq!(
        book.bid_levels(),
        vec![
            (8_999_900_000_000, qty(2.3)),
            (8_999_950_000_000, qty(0.5)),
            (9_000_000_000_000, qty(2.88)),
        ]
    );
    assert_eq!(
        book.ask_levels(),
        vec![
            (9_000_200_000_000, qty(1.1)),
            (9_000_300_000_000, qty(4.0)),
            (9_000_400_000_000, qty(3.15)),
        ]
    );
}

#[test]
fn both_zeros_remove_a_level_and_other_values_do_not() {
    for zero in [0.0f64, -0.0f64] {
        let mut book = OrderBook::new(8);
        book.apply_update(7, qty(1.0), true);
        book.apply_update(7, qty(zero), true);
        assert!(book.bids.is_empty());
    }
    for kept in [f64::NAN, f64::INFINITY, -1.0, 5e-324] {
        let mut book = OrderBook::new(8);
        book.apply_update(7, qty(kept), false);
        assert_eq!(book.asks.len(), 1);
    }
}

#[test]
fn removing_a_missing_level_changes_nothing() {
    let mut book = sample_book();
    let before = book.bid_levels();
    book.apply_update(1, qty(0.0), true);
    assert_eq!(book.bid_levels(), before);
}

#[test]
fn later_setting_of_a_level_counts() {
    let mut book = OrderBook::new(8);
    book.update_levels(&[("1", qty(1.0)), ("1", qty(0.0)), ("1", qty(3.0))], &[]);
    assert_eq!(book.bid_levels(), vec![(100_000_000, qty(3.0))]);
    assert!(book.asks.is_empty());
}

#[test]
fn applying_an_update_twice_is_applying_it_once() {
    let levels = [("2", qty(1.0)), ("3", qty(0.0)), ("4", qty(2.0))];
    let mut once = sample_book();
    once.update_levels(&levels, &levels);
    let mut twice = sample_book();
    twice.update_levels(&levels, &levels);
    twice.update_levels(&levels, &levels);
    assert_eq!(once.bid_levels(), twice.bid_levels());
    assert_eq!(once.ask_levels(), twice.ask_levels());
}

#[test]
fn best_levels_come_best_first() {
    let book = sample_book();
    let (bids, asks) = book.get_deep_imbalance(2);
    assert_eq!(bids, vec![(9_000_000_000_000, qty(1.5)), (8_999_900_000_000, qty(2.3))]);
    assert_eq!(asks, vec![(9_000_100_000_000, qty(0.5)), (9_000_200_000_000, qty(1.1))]);
    let (all_bids, all_asks) = book.get_deep_imbalance(100);
    assert_eq!((all_bids.len(), all_asks.len()), (3, 3));
    let (no_bids, no_asks) = book.get_deep_imbalance(0);
    assert!(no_bids.is_empty() && no_asks.is_empty());
}

#[test]
fn waiting_book_takes_no_event() {
    let mut book = OrderBook::new(8);
    assert!(!book.handle_event(1, 10, 0));
    assert_eq!(book.status, BookStatus::WaitingForSnapshot);
    assert_eq!(book.last_update_id, 0);
}

#[test]
fn old_event_is_dropped() {
    let mut book = sample_book();
    assert!(!book.handle_event(90, 96, 89));
    assert!(!book.handle_event(97, 100, 96));
    assert_eq!(book.status, BookStatus::Synced);
    assert_eq!(book.last_update_id, 100);
}

#[test]
fn event_without_gap_advances_the_book() {
    let mut book = sample_book();
    assert!(book.handle_event(98, 105, 97));
    assert_eq!(book.last_update_id, 105);
    assert!(book.handle_event(106, 110, 105));
    assert_eq!(book.last_update_id, 110);
    assert_eq!(book.status, BookStatus::Synced);
}

#[test]
fn gap_makes_the_book_wait_until_a_snapshot() {
    let mut book = sample_book();
    assert!(!book.handle_event(103, 105, 102));
    assert_eq!(book.status, BookStatus::WaitingForSnapshot);
    assert_eq!(book.last_update_id, 100);
    assert!(!book.handle_event(99, 105, 98));
    book.load_snapshot(104, &[], &[]);
    assert!(book.handle_event(103, 105, 102));
}

#[test]
fn stale_book_stays_stale_while_it_advances() {
    let mut book = sample_book();
    book.mark_stale();
    assert!(book.handle_event(101, 105, 100));
    assert_eq!(book.status, BookStatus::Stale);
}

#[test]
fn replayed_event_is_not_accepted() {
    let mut book = sample_book();
    assert!(book.accept_update(10, 100, &update(101, 105, 100)));
    assert!(!book.accept_update(10, 100, &update(101, 105, 100)));
    assert_eq!(book.last_update_id, 105);
}

#[test]
fn latency_decides_between_stale_and_synced() {
    let mut book = sample_book();
    assert!(book.accept_update(101, 100, &update(101, 105, 100)));
    assert_eq!(book.status, BookStatus::Stale);
    assert!(book.accept_update(100, 100, &update(106, 107, 105)));
    assert_eq!(book.status, BookStatus::Synced);
    assert!(!book.accept_update(500, 100, &update(1, 2, 0)));
    assert_eq!(book.status, BookStatus::Stale);
}

#[test]
fn fast_event_does_not_end_the_wait() {
    let mut book = sample_book();
    assert!(!book.accept_update(1, 100, &update(120, 125, 119)));
    assert_eq!(book.status, BookStatus::WaitingForSnapshot);
    assert!(!book.accept_update(1, 100, &update(101, 126, 100)));
    assert!(!book.accept_update(1, 100, &update(90, 95, 89)));
    assert_eq!(book.status, BookStatus::WaitingForSnapshot);
    assert_eq!(book.last_update_id, 100);
}

#[test]
fn monitor_follows_the_status() {
    let mut book = sample_book();
    assert_eq!(book.monitor(1), MonitorStep::Signal);
    book.mark_stale();
    assert_eq!(book.monitor(2), MonitorStep::Halt);
    assert_eq!(book.last_snapshot_request_time, 0);
}

#[test]
fn snapshot_requests_keep_the_cooldown() {
    let mut book = OrderBook::new(8);
    assert_eq!(book.monitor(5000), MonitorStep::Wait);
    assert_eq!(book.monitor(5001), MonitorStep::RequestSnapshot);
    assert_eq!(book.last_snapshot_request_time, 5001);
    assert_eq!(book.monitor(10_001), MonitorStep::Wait);
    assert_eq!(book.monitor(10_002), MonitorStep::RequestSnapshot);
    book.last_snapshot_request_time = i64::MIN;
    assert_eq!(book.monitor(i64::MAX), MonitorStep::RequestSnapshot);
}

#[test]
fn only_a_synced_book_is_backed_up() {
    let mut book = sample_book();
    assert!(book.backup_due(true));
    assert!(!book.backup_due(false));
    book.mark_stale();
    assert!(!book.backup_due(true));
    assert!(!OrderBook::new(8).backup_due(true));
}

#[test]
fn book_is_rebuilt_from_snapshot_and_events() {
    let mut book = OrderBook::new(8);
    book.load_snapshot(10, &[("1", qty(1.0)), ("2", qty(2.0))], &[("5", qty(5.0))]);
    let first = [("2", qty(0.0)), ("3", qty(3.0))];
    assert!(book.process_update(0, 100, &update(9, 12, 8), &first, &[]));
    assert!(book.process_update(200, 100, &update(13, 15, 12), &[("1", qty(9.0))], &[("4", qty(4.0))]));
    assert_eq!(
        book.bid_levels(),
        vec![(100_000_000, qty(9.0)), (300_000_000, qty(3.0))]
    );
    assert_eq!(
        book.ask_levels(),
        vec![(400_000_000, qty(4.0)), (500_000_000, qty(5.0))]
    );
    assert_eq!((book.last_update_id, book.status), (15, BookStatus::Stale));
}

#[test]
fn refused_event_sets_no_level() {
    let mut book = sample_book();
    let before = book.bid_levels();
    assert!(!book.process_update(0, 100, &update(90, 95, 89), &[("1", qty(1.0))], &[]));
    assert_eq!(book.bid_levels(), before);
    assert!(!book.process_update(0, 100, &update(103, 105, 102), &[("1", qty(1.0))], &[]));
    assert_eq!(book.bid_levels(), before);
    assert_eq!(book.status, BookStatus::WaitingForSnapshot);
    assert!(!book.process_update(0, 100, &update(101, 106, 100), &[("1", qty(1.0))], &[]));
    assert_eq!(book.bid_levels(), before);
}
