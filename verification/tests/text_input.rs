use orderbook_rust::amount::Amount;
use orderbook_rust::fixed_point::read_fixed_point;
use orderbook_rust::levels::{
    levels_usable, pairs_fit, price_fits, snapshot_pairs, update_pairs, update_ticks,
};
use orderbook_rust::parser::fast_parse_fixed_point;

fn level(texts: &[&str]) -> Vec<String> {
    texts.iter().map(|t| t.to_string()).collect()
}

#[test]
fn unsigned_reader_keeps_every_digit() {
    assert_eq!(fast_parse_fixed_point("90042.1234"), 9_004_212_340_000);
    assert_eq!(fast_parse_fixed_point("100.5"), 10_050_000_000);
    assert_eq!(fast_parse_fixed_point("0.0988"), 9_880_000);
    assert_eq!(fast_parse_fixed_point("12"), 1_200_000_000);
    assert_eq!(fast_parse_fixed_point("1.123456789"), 112_345_678);
    assert_eq!(fast_parse_fixed_point("184467440737.09551615"), u64::MAX);
}

#[test]
fn other_characters_do_not_count_anywhere() {
    assert_eq!(fast_parse_fixed_point("-1,2_3.4 5"), fast_parse_fixed_point("123.45"));
    assert_eq!(fast_parse_fixed_point("123.45"), 12_345_000_000);
}

#[test]
fn larger_decimal_reads_no_smaller() {
    let rising = ["0", "0.000000001", "0.00000001", "0.1", "0.99999999999", "1.0", "1.05", "12"];
    let read: Vec<u64> = rising.iter().map(|text| fast_parse_fixed_point(text)).collect();
    assert_eq!(
        read,
        vec![0, 0, 1, 10_000_000, 99_999_999, 100_000_000, 105_000_000, 1_200_000_000]
    );
}

#[test]
fn number_that_does_not_fit_is_refused() {
    assert_eq!(read_fixed_point("184467440737.09551615"), Some(u64::MAX));
    assert_eq!(read_fixed_point("184467440737.09551616"), None);
    assert_eq!(read_fixed_point("184467440738"), None);
    assert_eq!(read_fixed_point("99999999999999999999999"), None);
    assert_eq!(read_fixed_point("0000000000000000000000000000001"), Some(100_000_000));
}

#[test]
fn price_fits_up_to_the_largest() {
    assert!(price_fits("92233720368.54775807"));
    assert!(!price_fits("92233720368.54775808"));
    assert!(!price_fits("184467440738"));
}

#[test]
fn snapshot_levels_that_are_no_pairs_are_left_out() {
    let levels = vec![
        level(&["1", "2"]),
        level(&["3"]),
        level(&[]),
        level(&["4", "5", "6"]),
        level(&["7", "8"]),
    ];
    assert_eq!(snapshot_pairs(&levels), vec![("1", "2"), ("7", "8")]);
}

#[test]
fn update_levels_give_their_first_two_texts() {
    let levels = vec![level(&["1", "2"]), level(&["4", "5", "6"])];
    assert!(levels_usable(&levels));
    assert_eq!(update_pairs(&levels), vec![("1", "2"), ("4", "5")]);
}

#[test]
fn unusable_levels_are_told() {
    assert!(!levels_usable(&vec![level(&["1", "2"]), level(&["3"])]));
    assert!(!levels_usable(&vec![level(&["92233720369", "2"])]));
    assert!(levels_usable(&Vec::new()));
    assert!(pairs_fit(&vec![("1", "x")]));
    assert!(!pairs_fit(&vec![("1", "x"), ("92233720369", "y")]));
}

#[test]
fn update_gives_one_tick_per_level() {
    let a = Amount { bits: 1 };
    let b = Amount { bits: 2 };
    let ticks = update_ticks(77, "btcusdt", &[("1.5", a), ("2", b)], &[("3", a)]);
    assert_eq!(ticks.len(), 3);
    assert!(ticks.iter().all(|t| t.timestamp == 77 && t.symbol == "btcusdt"));
    let prices: Vec<i64> = ticks.iter().map(|t| t.price).collect();
    assert_eq!(prices, vec![150_000_000, 200_000_000, 300_000_000]);
    let sides: Vec<bool> = ticks.iter().map(|t| t.is_bid).collect();
    assert_eq!(sides, vec![true, true, false]);
    let quantities: Vec<u64> = ticks.iter().map(|t| t.qty.bits).collect();
    assert_eq!(quantities, vec![1, 2, 1]);
}

#[test]
fn amount_zero_is_zero() {
    assert_eq!(Amount::zero().bits, 0.0f64.to_bits());
    assert!(Amount::zero().is_zero());
    assert!(Amount { bits: (-0.0f64).to_bits() }.is_zero());
    assert!(!Amount { bits: 1.0f64.to_bits() }.is_zero());
}
