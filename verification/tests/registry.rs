use orderbook_rust::amount::Amount;
use orderbook_rust::book::BookStatus;
use orderbook_rust::init_market::{
    find_market, market_filters, select_markets, target_symbols, wanted_markets, ListedFilter,
    ListedSymbol, MarketFilters,
};
use orderbook_rust::manager::{BookKey, BookManager};
use std::sync::Arc;

fn amount(x: f64) -> Amount {
    Amount { bits: x.to_bits() }
}

fn market(symbol: &str, precision: usize) -> MarketFilters {
    MarketFilters {
        symbol: symbol.to_string(),
        price_precision: precision,
        qty_precision: 3,
        tick_size: amount(0.1),
        step_size: amount(0.001),
        min_qty: amount(0.001),
    }
}

fn listed(symbol: &str) -> ListedSymbol {
    ListedSymbol {
        symbol: Some(symbol.to_string()),
        price_precision: None,
        quantity_precision: None,
        filters: None,
    }
}

fn filter(kind: &str) -> ListedFilter {
    ListedFilter {
        filter_type: Some(kind.to_string()),
        tick_size: Some(amount(0.5)),
        step_size: Some(amount(0.25)),
        min_qty: Some(amount(2.0)),
    }
}

#[test]
fn registered_book_is_found_in_any_case() {
    let mut manager = BookManager::new();
    manager.register_pair("Binance", "btcUSDT", market("BTCUSDT", 2));
    let book = manager.get_book("BINANCE", "btcusdt").unwrap();
    assert!(Arc::ptr_eq(&book, &manager.get_book("binance", "BTCUSDT").unwrap()));
    assert!(manager.get_book("binance", "ETHUSDT").is_none());
    assert!(manager.get_book("bybit", "BTCUSDT").is_none());
    let key = BookKey { exchange: "binance".to_string(), symbol: "BTCUSDT".to_string() };
    assert!(Arc::ptr_eq(&book, &manager.get_by_key(&key).unwrap()));
    let raw = BookKey { exchange: "Binance".to_string(), symbol: "btcUSDT".to_string() };
    assert!(manager.get_by_key(&raw).is_none());
}

#[test]
fn registered_book_starts_empty() {
    let mut manager = BookManager::new();
    manager.register_pair("binance", "BTCUSDT", market("BTCUSDT", 2));
    let book = manager.get_book("binance", "BTCUSDT").unwrap();
    let guard = book.try_read().unwrap();
    assert_eq!(guard.status, BookStatus::WaitingForSnapshot);
    assert!(guard.bids.is_empty() && guard.asks.is_empty());
    assert_eq!(guard.last_update_id, 0);
}

#[test]
fn registering_again_replaces_book_and_rules() {
    let mut manager = BookManager::new();
    manager.register_pair("binance", "BTCUSDT", market("BTCUSDT", 2));
    manager.register_pair("binance", "ETHUSDT", market("ETHUSDT", 2));
    let old = manager.get_book("binance", "BTCUSDT").unwrap();
    old.try_write().unwrap().load_snapshot(5, &[], &[]);
    let other = manager.get_book("binance", "ETHUSDT").unwrap();
    manager.register_pair("binance", "btcusdt", market("BTCUSDT", 7));
    let new = manager.get_book("binance", "BTCUSDT").unwrap();
    assert!(!Arc::ptr_eq(&old, &new));
    assert_eq!(new.try_read().unwrap().last_update_id, 0);
    assert!(Arc::ptr_eq(&other, &manager.get_book("binance", "ETHUSDT").unwrap()));
    assert_eq!((manager.books.len(), manager.filters_map.len()), (2, 2));
    assert_eq!(manager.filters_map[0].1.price_precision, 7);
}

#[test]
fn all_configured_symbols_are_registered() {
    let mut manager = BookManager::new();
    let symbols = vec!["btcusdt".to_string(), "EthUsdt".to_string()];
    let markets = vec![market("ETHUSDT", 4), market("BTCUSDT", 2), market("XRPUSDT", 1)];
    assert_eq!(manager.register_symbols("Binance", &symbols, &markets), None);
    assert!(manager.get_book("binance", "BTCUSDT").is_some());
    assert!(manager.get_book("binance", "ETHUSDT").is_some());
    assert!(manager.get_book("binance", "XRPUSDT").is_none());
    let eth = manager.filters_map.iter().find(|e| e.0.symbol == "ETHUSDT").unwrap();
    assert_eq!(eth.1.price_precision, 4);
}

#[test]
fn every_symbol_has_a_book_of_its_own() {
    let mut manager = BookManager::new();
    let symbols = vec!["btcusdt".to_string(), "EthUsdt".to_string()];
    let markets = vec![market("ETHUSDT", 4), market("BTCUSDT", 2)];
    assert_eq!(manager.register_symbols("binance", &symbols, &markets), None);
    let btc = manager.get_book("binance", "BTCUSDT").unwrap();
    let eth = manager.get_book("binance", "ETHUSDT").unwrap();
    assert!(!Arc::ptr_eq(&btc, &eth));
    btc.try_write().unwrap().apply_update(100, amount(1.5), true);
    assert_eq!(btc.try_read().unwrap().bids.len(), 1);
    assert!(eth.try_read().unwrap().bids.is_empty());
    // Registered once more, each has another book; who holds an old one keeps it.
    assert_eq!(manager.register_symbols("binance", &symbols, &markets), None);
    let new_btc = manager.get_book("binance", "BTCUSDT").unwrap();
    let new_eth = manager.get_book("binance", "ETHUSDT").unwrap();
    assert!(!Arc::ptr_eq(&new_btc, &btc) && !Arc::ptr_eq(&new_eth, &eth));
    assert!(!Arc::ptr_eq(&new_btc, &new_eth));
    assert!(new_btc.try_read().unwrap().bids.is_empty());
    assert_eq!(btc.try_read().unwrap().bids.len(), 1);
}

#[test]
fn symbol_without_market_stops_the_registration() {
    let mut manager = BookManager::new();
    let symbols = vec!["A".to_string(), "missing".to_string(), "B".to_string()];
    let markets = vec![market("A", 1), market("B", 1)];
    assert_eq!(manager.register_symbols("x", &symbols, &markets), Some(1));
    assert!(manager.get_book("x", "A").is_some());
    assert!(manager.get_book("x", "B").is_none());
}

#[test]
fn missing_members_get_their_defaults() {
    let bare = ListedSymbol {
        symbol: None,
        price_precision: None,
        quantity_precision: None,
        filters: None,
    };
    let m = market_filters(&bare);
    assert_eq!(m.symbol, "");
    assert_eq!((m.price_precision, m.qty_precision), (2, 2));
    assert!(m.tick_size.is_zero() && m.step_size.is_zero() && m.min_qty.is_zero());
}

#[test]
fn filters_are_read_by_type() {
    let mut entry = listed("BTCUSDT");
    entry.price_precision = Some(1);
    entry.quantity_precision = Some(3);
    let mut later = filter("PRICE_FILTER");
    later.tick_size = Some(amount(0.01));
    let mut unknown = filter("MARKET_LOT_SIZE");
    unknown.step_size = Some(amount(9.0));
    let mut untyped = filter("");
    untyped.filter_type = None;
    entry.filters = Some(vec![filter("PRICE_FILTER"), filter("LOT_SIZE"), later, unknown, untyped]);
    let m = market_filters(&entry);
    assert_eq!((m.price_precision, m.qty_precision), (1, 3));
    assert_eq!(m.tick_size, amount(0.01));
    assert_eq!(m.step_size, amount(0.25));
    assert_eq!(m.min_qty, amount(2.0));
}

#[test]
fn filter_without_sizes_states_zero() {
    let mut entry = listed("BTCUSDT");
    let mut empty = filter("LOT_SIZE");
    empty.step_size = None;
    empty.min_qty = None;
    entry.filters = Some(vec![filter("LOT_SIZE"), empty]);
    let m = market_filters(&entry);
    assert!(m.step_size.is_zero() && m.min_qty.is_zero());
}

#[test]
fn only_configured_markets_are_kept() {
    let symbols = vec!["btcusdt".to_string(), "ETHUSDT".to_string(), "NONE".to_string()];
    let mut again = listed("BTCUSDT");
    again.price_precision = Some(9);
    let all = Some(vec![listed("XRPUSDT"), listed("BTCUSDT"), listed("ETHUSDT"), again]);
    let markets = wanted_markets(&symbols, &all);
    assert_eq!(markets.len(), 2);
    assert_eq!(markets[find_market(&markets, "BTCUSDT").unwrap()].price_precision, 9);
    assert_eq!(markets[find_market(&markets, "ETHUSDT").unwrap()].price_precision, 2);
    assert_eq!(find_market(&markets, "XRPUSDT"), None);
    assert!(wanted_markets(&symbols, &None).is_empty());
}

#[test]
fn selection_compares_names_as_they_stand() {
    let all = Some(vec![listed("BTCUSDT"), listed("btcusdt")]);
    let markets = select_markets(&vec!["btcusdt".to_string()], &all);
    assert_eq!(markets.len(), 1);
    assert_eq!(markets[0].symbol, "btcusdt");
    assert_eq!(target_symbols(&vec!["btcUsdt".to_string()]), vec!["BTCUSDT".to_string()]);
}
