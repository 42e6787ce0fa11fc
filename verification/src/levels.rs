//! The levels of a message, from lists of texts to prices and quantities.
use vstd::prelude::*;

use crate::amount::Amount;
use crate::book::OrderBook;
use crate::fixed_point::read_fixed_point;
use crate::storage::TickData;

verus! {

/// The first two texts of a level.
pub open spec fn pair_of(level: Vec<String>) -> (Seq<char>, Seq<char>) {
    (level@[0]@, level@[1]@)
}

/// The texts of some pairs.
pub open spec fn pair_texts(pairs: Seq<(&str, &str)>) -> Seq<(Seq<char>, Seq<char>)> {
    pairs.map_values(|pair: (&str, &str)| (pair.0@, pair.1@))
}

/// The pairs of the levels that have exactly two texts, in order.
pub open spec fn exact_pairs(levels: Seq<Vec<String>>) -> Seq<(Seq<char>, Seq<char>)>
    decreases levels.len(),
{
    if levels.len() == 0 {
        Seq::empty()
    } else if levels.last()@.len() == 2 {
        exact_pairs(levels.drop_last()).push(pair_of(levels.last()))
    } else {
        exact_pairs(levels.drop_last())
    }
}

/// The price and quantity texts of a snapshot's levels. A level that is not a pair is left out.
pub fn snapshot_pairs<'a>(levels: &'a Vec<Vec<String>>) -> (r: Vec<(&'a str, &'a str)>)
    ensures
        pair_texts(r@) == exact_pairs(levels@),
{
    let mut pairs: Vec<(&'a str, &'a str)> = Vec::new();
    let mut i: usize = 0;
    assert(levels@.take(0) =~= Seq::<Vec<String>>::empty());
    while i < levels.len()
        invariant
            i <= levels.len(),
            pair_texts(pairs@) == exact_pairs(levels@.take(i as int)),
        decreases levels.len() - i,
    {
        let level = &levels[i];
        assert(levels@.take(i + 1).drop_last() =~= levels@.take(i as int));
        if level.len() == 2 {
            let ghost before = pairs@;
            pairs.push((level[0].as_str(), level[1].as_str()));
            assert(pair_texts(pairs@) =~= pair_texts(before).push(pair_of(*level)));
        }
        i = i + 1;
    }
    assert(levels@.take(i as int) =~= levels@);
    pairs
}

/// Whether each level of an update has a price and a quantity text, and the price fits.
pub open spec fn all_usable(levels: Seq<Vec<String>>) -> bool {
    forall|i: int|
        0 <= i < levels.len() ==> (#[trigger] levels[i])@.len() >= 2
            && crate::fixed_point::fixed_point(levels[i]@[0]@) <= i64::MAX
}

/// Tells whether the levels of an update can be applied.
pub fn levels_usable(levels: &Vec<Vec<String>>) -> (r: bool)
    ensures
        r == all_usable(levels@),
{
    let mut i: usize = 0;
    while i < levels.len()
        invariant
            i <= levels.len(),
            forall|k: int|
                0 <= k < i ==> (#[trigger] levels@[k])@.len() >= 2
                    && crate::fixed_point::fixed_point(levels@[k]@[0]@) <= i64::MAX,
        decreases levels.len() - i,
    {
        let level = &levels[i];
        if level.len() < 2 {
            return false;
        }
        if !price_fits(level[0].as_str()) {
            return false;
        }
        i = i + 1;
    }
    true
}

/// Tells whether a price text fits in a fixed-point price.
pub fn price_fits(text: &str) -> (r: bool)
    ensures
        r == (crate::fixed_point::fixed_point(text@) <= i64::MAX),
{
    match read_fixed_point(text) {
        Some(n) => n <= i64::MAX as u64,
        None => false,
    }
}

/// Tells whether the price texts of some pairs all fit in a fixed-point price.
pub fn pairs_fit(pairs: &Vec<(&str, &str)>) -> (r: bool)
    ensures
        r == forall|i: int|
            0 <= i < pairs.len() ==> crate::fixed_point::fixed_point((#[trigger] pairs@[i]).0@)
                <= i64::MAX,
{
    let mut i: usize = 0;
    while i < pairs.len()
        invariant
            i <= pairs.len(),
            forall|k: int|
                0 <= k < i ==> crate::fixed_point::fixed_point((#[trigger] pairs@[k]).0@)
                    <= i64::MAX,
        decreases pairs.len() - i,
    {
        let (price, _) = pairs[i];
        if !price_fits(price) {
            assert(crate::fixed_point::fixed_point(pairs@[i as int].0@) > i64::MAX);
            return false;
        }
        i = i + 1;
    }
    true
}

/// The price and quantity texts of an update's levels. Each level has to have both.
pub fn update_pairs<'a>(levels: &'a Vec<Vec<String>>) -> (r: Vec<(&'a str, &'a str)>)
    requires
        forall|i: int| 0 <= i < levels.len() ==> (#[trigger] levels@[i])@.len() >= 2,
    ensures
        pair_texts(r@) == levels@.map_values(|level: Vec<String>| pair_of(level)),
{
    let mut pairs: Vec<(&'a str, &'a str)> = Vec::new();
    let mut i: usize = 0;
    while i < levels.len()
        invariant
            i <= levels.len(),
            forall|k: int| 0 <= k < levels.len() ==> (#[trigger] levels@[k])@.len() >= 2,
            pairs.len() == i,
            forall|k: int|
                0 <= k < i ==> ((#[trigger] pairs@[k]).0@, pairs@[k].1@) == pair_of(levels@[k]),
        decreases levels.len() - i,
    {
        let level = &levels[i];
        pairs.push((level[0].as_str(), level[1].as_str()));
        i = i + 1;
    }
    pairs
}

/// Whether `tick` records `level`.
pub open spec fn records(
    tick: TickData,
    timestamp: i64,
    symbol: Seq<char>,
    level: (&str, Amount),
    is_bid: bool,
) -> bool {
    &&& tick.timestamp == timestamp
    &&& tick.symbol@ == symbol
    &&& tick.price == crate::fixed_point::fixed_point(level.0@)
    &&& tick.qty == level.1
    &&& tick.is_bid == is_bid
}

/// The ticks of an update: one for each bid, then one for each ask.
pub fn update_ticks(
    timestamp: i64,
    symbol: &str,
    bids: &[(&str, Amount)],
    asks: &[(&str, Amount)],
) -> (r: Vec<TickData>)
    requires
        crate::book::prices_fit(bids@),
        crate::book::prices_fit(asks@),
    ensures
        r.len() == bids.len() + asks.len(),
        forall|i: int|
            0 <= i < bids.len() ==> records(
                #[trigger] r@[i],
                timestamp,
                symbol@,
                bids@[i],
                true,
            ),
        forall|i: int|
            bids.len() <= i < r.len() ==> records(
                #[trigger] r@[i],
                timestamp,
                symbol@,
                asks@[i - bids.len()],
                false,
            ),
{
    let mut ticks: Vec<TickData> = Vec::new();
    let mut i: usize = 0;
    while i < bids.len()
        invariant
            i <= bids.len(),
            crate::book::prices_fit(bids@),
            ticks.len() == i,
            forall|k: int|
                0 <= k < i ==> records(#[trigger] ticks@[k], timestamp, symbol@, bids@[k], true),
        decreases bids.len() - i,
    {
        let (price, qty) = bids[i];
        ticks.push(
            TickData {
                timestamp,
                symbol: symbol.to_string(),
                price: OrderBook::fast_parse_price(price),
                qty,
                is_bid: true,
            },
        );
        i = i + 1;
    }
    let mut j: usize = 0;
    while j < asks.len()
        invariant
            j <= asks.len(),
            crate::book::prices_fit(asks@),
            ticks.len() == bids.len() + j,
            forall|k: int|
                0 <= k < bids.len() ==> records(
                    #[trigger] ticks@[k],
                    timestamp,
                    symbol@,
                    bids@[k],
                    true,
                ),
            forall|k: int|
                bids.len() <= k < ticks.len() ==> records(
                    #[trigger] ticks@[k],
                    timestamp,
                    symbol@,
                    asks@[k - bids.len()],
                    false,
                ),
        decreases asks.len() - j,
    {
        let (price, qty) = asks[j];
        ticks.push(
            TickData {
                timestamp,
                symbol: symbol.to_string(),
                price: OrderBook::fast_parse_price(price),
                qty,
                is_bid: false,
            },
        );
        j = j + 1;
    }
    ticks
}

} // verus!
