//! Which markets are traded, and what the exchange says of them.
use vstd::prelude::*;

use crate::amount::Amount;
use crate::text::same_text;
use crate::text::to_uppercase;

verus! {

/// The trading rules of one symbol.
#[derive(Debug)]
pub struct MarketFilters {
    pub symbol: String,
    pub price_precision: usize,
    pub qty_precision: usize,
    /// The least step of a price.
    pub tick_size: Amount,
    /// The least step of a quantity.
    pub step_size: Amount,
    pub min_qty: Amount,
}

impl Clone for MarketFilters {
    fn clone(&self) -> (r: MarketFilters)
        ensures
            r == *self,
    {
        MarketFilters {
            symbol: self.symbol.clone(),
            price_precision: self.price_precision,
            qty_precision: self.qty_precision,
            tick_size: self.tick_size,
            step_size: self.step_size,
            min_qty: self.min_qty,
        }
    }
}

/// One entry of the `filters` array of a listed symbol. A member that is missing, or that is not
/// a text, is absent.
#[derive(Debug)]
pub struct ListedFilter {
    pub filter_type: Option<String>,
    /// The numbers that the texts write; zero where a text writes none.
    pub tick_size: Option<Amount>,
    pub step_size: Option<Amount>,
    pub min_qty: Option<Amount>,
}

/// One entry of the `symbols` array of the exchange information. A member that is missing, or
/// that is of another kind, is absent.
#[derive(Debug)]
pub struct ListedSymbol {
    pub symbol: Option<String>,
    pub price_precision: Option<u64>,
    pub quantity_precision: Option<u64>,
    pub filters: Option<Vec<ListedFilter>>,
}

/// The precision of a market that does not state one.
pub const DEFAULT_PRECISION: u64 = 2;

/// Tick size, step size and least quantity.
pub struct Sizes {
    pub tick_size: Amount,
    pub step_size: Amount,
    pub min_qty: Amount,
}

pub open spec fn amount_or_zero(amount: Option<Amount>) -> Amount {
    match amount {
        Some(a) => a,
        None => Amount { bits: 0 },
    }
}

/// Whether the filter is of the named type.
pub open spec fn is_filter(filter: ListedFilter, name: Seq<char>) -> bool {
    filter.filter_type matches Some(t) && t@ == name
}

/// The sizes that `filters` state: the last price filter gives the tick size, the last lot size
/// filter the step size and the least quantity. What none states is zero.
pub open spec fn sizes_of(filters: Seq<ListedFilter>) -> Sizes
    decreases filters.len(),
{
    if filters.len() == 0 {
        Sizes {
            tick_size: Amount { bits: 0 },
            step_size: Amount { bits: 0 },
            min_qty: Amount { bits: 0 },
        }
    } else {
        let before = sizes_of(filters.drop_last());
        let last = filters.last();
        if is_filter(last, "PRICE_FILTER"@) {
            Sizes { tick_size: amount_or_zero(last.tick_size), ..before }
        } else if is_filter(last, "LOT_SIZE"@) {
            Sizes {
                step_size: amount_or_zero(last.step_size),
                min_qty: amount_or_zero(last.min_qty),
                ..before
            }
        } else {
            before
        }
    }
}

/// The name of a listed symbol; empty where none is given.
pub open spec fn listed_name(listed: ListedSymbol) -> Seq<char> {
    match listed.symbol {
        Some(name) => name@,
        None => Seq::empty(),
    }
}

pub open spec fn precision_of(stated: Option<u64>) -> usize {
    match stated {
        Some(p) => p as usize,
        None => DEFAULT_PRECISION as usize,
    }
}

/// Whether `market` holds what `listed` states.
pub open spec fn describes(market: MarketFilters, listed: ListedSymbol) -> bool {
    let sizes = match listed.filters {
        Some(filters) => sizes_of(filters@),
        None => sizes_of(Seq::empty()),
    };
    &&& market.symbol@ == listed_name(listed)
    &&& market.price_precision == precision_of(listed.price_precision)
    &&& market.qty_precision == precision_of(listed.quantity_precision)
    &&& market.tick_size == sizes.tick_size
    &&& market.step_size == sizes.step_size
    &&& market.min_qty == sizes.min_qty
}

/// The texts of some strings.
pub open spec fn texts(strings: Seq<String>) -> Seq<Seq<char>> {
    strings.map_values(|s: String| s@)
}

/// The texts of some strings, each put in upper case.
pub open spec fn uppercased(strings: Seq<String>) -> Seq<Seq<char>> {
    strings.map_values(|s: String| crate::text::uppercase(s@))
}

/// Whether `listed[i]` is the last entry with the given name.
pub open spec fn is_last_entry(listed: Seq<ListedSymbol>, name: Seq<char>, i: int) -> bool {
    &&& 0 <= i < listed.len()
    &&& listed_name(listed[i]) == name
    &&& forall|j: int| i < j < listed.len() ==> listed_name(#[trigger] listed[j]) != name
}

/// Whether no two markets have the same symbol.
pub open spec fn distinct_symbols(markets: Seq<MarketFilters>) -> bool {
    forall|i: int, j: int|
        0 <= i < j < markets.len() ==> (#[trigger] markets[i]).symbol@ != (#[trigger] markets[
            j]).symbol@
}

/// Whether `market` holds what the last entry with its symbol states.
pub open spec fn stated_last(listed: Seq<ListedSymbol>, market: MarketFilters) -> bool {
    exists|i: int| is_last_entry(listed, market.symbol@, i) && describes(market, listed[i])
}

/// Whether one of `markets` has the given symbol.
pub open spec fn has_market(markets: Seq<MarketFilters>, name: Seq<char>) -> bool {
    exists|m: int| 0 <= m < markets.len() && (#[trigger] markets[m]).symbol@ == name
}

/// Whether `markets` are exactly those among `listed` that `targets` names, each once and as its
/// last entry states it.
pub open spec fn are_wanted_markets(
    targets: Seq<Seq<char>>,
    listed: Seq<ListedSymbol>,
    markets: Seq<MarketFilters>,
) -> bool {
    &&& distinct_symbols(markets)
    &&& forall|m: int|
        0 <= m < markets.len() ==> targets.contains((#[trigger] markets[m]).symbol@)
            && stated_last(listed, markets[m])
    &&& forall|i: int|
        0 <= i < listed.len() && targets.contains(listed_name(#[trigger] listed[i]))
            ==> has_market(markets, listed_name(listed[i]))
}

fn read_sizes(filters: &Vec<ListedFilter>) -> (r: Sizes)
    ensures
        r == sizes_of(filters@),
{
    let mut sizes = Sizes {
        tick_size: Amount::zero(),
        step_size: Amount::zero(),
        min_qty: Amount::zero(),
    };
    let mut i: usize = 0;
    assert(filters@.take(0) =~= Seq::<ListedFilter>::empty());
    while i < filters.len()
        invariant
            i <= filters.len(),
            sizes == sizes_of(filters@.take(i as int)),
        decreases filters.len() - i,
    {
        let filter = &filters[i];
        assert(filters@.take(i + 1).drop_last() =~= filters@.take(i as int));
        match &filter.filter_type {
            Some(name) => {
                if same_text(name.as_str(), "PRICE_FILTER") {
                    sizes.tick_size = filter.tick_size.unwrap_or(Amount::zero());
                } else if same_text(name.as_str(), "LOT_SIZE") {
                    sizes.step_size = filter.step_size.unwrap_or(Amount::zero());
                    sizes.min_qty = filter.min_qty.unwrap_or(Amount::zero());
                }
            },
            None => {},
        }
        i = i + 1;
    }
    assert(filters@.take(i as int) =~= filters@);
    sizes
}

/// The trading rules that a listed symbol states.
pub fn market_filters(listed: &ListedSymbol) -> (r: MarketFilters)
    ensures
        describes(r, *listed),
{
    let symbol = match &listed.symbol {
        Some(name) => name.clone(),
        None => String::new(),
    };
    let sizes = match &listed.filters {
        Some(filters) => read_sizes(filters),
        None => read_sizes(&Vec::new()),
    };
    MarketFilters {
        symbol,
        price_precision: listed.price_precision.unwrap_or(DEFAULT_PRECISION) as usize,
        qty_precision: listed.quantity_precision.unwrap_or(DEFAULT_PRECISION) as usize,
        tick_size: sizes.tick_size,
        step_size: sizes.step_size,
        min_qty: sizes.min_qty,
    }
}

/// Where `markets` holds the market of the given symbol.
pub fn find_market(markets: &Vec<MarketFilters>, symbol: &str) -> (r: Option<usize>)
    ensures
        match r {
            Some(m) => {
                &&& m < markets.len()
                &&& markets@[m as int].symbol@ == symbol@
                &&& forall|k: int| 0 <= k < m ==> (#[trigger] markets@[k]).symbol@ != symbol@
            },
            None => forall|k: int|
                0 <= k < markets.len() ==> (#[trigger] markets@[k]).symbol@ != symbol@,
        },
{
    let mut m: usize = 0;
    while m < markets.len()
        invariant
            m <= markets.len(),
            forall|k: int| 0 <= k < m ==> (#[trigger] markets@[k]).symbol@ != symbol@,
        decreases markets.len() - m,
    {
        if same_text(markets[m].symbol.as_str(), symbol) {
            return Some(m);
        }
        m = m + 1;
    }
    None
}

/// The configured symbols in upper case.
pub fn target_symbols(symbols: &Vec<String>) -> (r: Vec<String>)
    ensures
        texts(r@) == uppercased(symbols@),
{
    let mut targets: Vec<String> = Vec::new();
    let mut i: usize = 0;
    while i < symbols.len()
        invariant
            i <= symbols.len(),
            targets.len() == i,
            forall|k: int|
                0 <= k < i ==> (#[trigger] targets@[k])@ == crate::text::uppercase(symbols@[k]@),
        decreases symbols.len() - i,
    {
        targets.push(to_uppercase(symbols[i].as_str()));
        i = i + 1;
    }
    targets
}

fn is_target(targets: &Vec<String>, name: &str) -> (r: bool)
    ensures
        r == texts(targets@).contains(name@),
{
    let mut i: usize = 0;
    while i < targets.len()
        invariant
            i <= targets.len(),
            forall|k: int| 0 <= k < i ==> (#[trigger] targets@[k])@ != name@,
        decreases targets.len() - i,
    {
        if same_text(targets[i].as_str(), name) {
            assert(texts(targets@)[i as int] == name@);
            return true;
        }
        i = i + 1;
    }
    proof {
        if texts(targets@).contains(name@) {
            let k = choose|k: int| 0 <= k < texts(targets@).len() && texts(targets@)[k] == name@;
            assert(targets@[k]@ == name@);
        }
    }
    false
}

/// An entry of another name leaves what is stated of a market as it was.
proof fn lemma_stated_last_kept(listed: Seq<ListedSymbol>, market: MarketFilters)
    requires
        listed.len() > 0,
        listed_name(listed.last()) != market.symbol@,
        stated_last(listed.drop_last(), market),
    ensures
        stated_last(listed, market),
{
    let front = listed.drop_last();
    let i = choose|i: int|
        is_last_entry(front, market.symbol@, i) && describes(market, front[i]);
    assert(listed[i] == front[i]);
    assert forall|j: int| i < j < listed.len() implies listed_name(#[trigger] listed[j])
        != market.symbol@ by {
        if j < front.len() {
            assert(front[j] == listed[j]);
        }
    }
    assert(is_last_entry(listed, market.symbol@, i));
}

/// One more entry that is wanted: its market takes the place of the one with the same symbol, or
/// is added.
proof fn lemma_market_added(
    targets: Seq<Seq<char>>,
    listed: Seq<ListedSymbol>,
    before: Seq<MarketFilters>,
    market: MarketFilters,
    after: Seq<MarketFilters>,
    at: int,
)
    requires
        listed.len() > 0,
        targets.contains(listed_name(listed.last())),
        are_wanted_markets(targets, listed.drop_last(), before),
        describes(market, listed.last()),
        ({
            ||| 0 <= at < before.len() && before[at].symbol@ == market.symbol@ && after
                == before.update(at, market)
            ||| at == before.len() && !has_market(before, market.symbol@) && after == before.push(
                market,
            )
        }),
    ensures
        are_wanted_markets(targets, listed, after),
{
    let front = listed.drop_last();
    let end = listed.len() - 1;
    let name = market.symbol@;
    assert forall|k: int| 0 <= k < before.len() && k != at implies (#[trigger] before[k]).symbol@
        != name && after[k] == before[k] by {
        if at < before.len() {
            if k < at {
                assert(before[k].symbol@ != before[at].symbol@);
            } else {
                assert(before[at].symbol@ != before[k].symbol@);
            }
        }
    }
    assert(after[at] == market);
    assert(distinct_symbols(after)) by {
        assert forall|i: int, j: int| 0 <= i < j < after.len() implies (#[trigger] after[i]).symbol@
            != (#[trigger] after[j]).symbol@ by {
            if i != at && j != at {
                assert(before[i].symbol@ != before[j].symbol@);
            } else if i != at {
                assert(before[i].symbol@ != name);
            } else {
                assert(before[j].symbol@ != name);
            }
        }
    }
    assert forall|m: int| 0 <= m < after.len() implies targets.contains(
        (#[trigger] after[m]).symbol@,
    ) && stated_last(listed, after[m]) by {
        if m == at {
            assert(is_last_entry(listed, name, end));
        } else {
            assert(before[m].symbol@ != name);
            lemma_stated_last_kept(listed, before[m]);
        }
    }
    assert forall|i: int|
        0 <= i < listed.len() && targets.contains(
            listed_name(#[trigger] listed[i]),
        ) implies has_market(after, listed_name(listed[i])) by {
        if i == end {
            assert(after[at].symbol@ == name);
        } else {
            assert(front[i] == listed[i]);
            let m = choose|m: int|
                0 <= m < before.len() && (#[trigger] before[m]).symbol@ == listed_name(front[i]);
            assert(after[m].symbol@ == before[m].symbol@);
        }
    }
}

proof fn lemma_market_skipped(
    targets: Seq<Seq<char>>,
    listed: Seq<ListedSymbol>,
    markets: Seq<MarketFilters>,
)
    requires
        listed.len() > 0,
        !targets.contains(listed_name(listed.last())),
        are_wanted_markets(targets, listed.drop_last(), markets),
    ensures
        are_wanted_markets(targets, listed, markets),
{
    let front = listed.drop_last();
    assert forall|m: int| 0 <= m < markets.len() implies targets.contains(
        (#[trigger] markets[m]).symbol@,
    ) && stated_last(listed, markets[m]) by {
        lemma_stated_last_kept(listed, markets[m]);
    }
    assert forall|i: int|
        0 <= i < listed.len() && targets.contains(
            listed_name(#[trigger] listed[i]),
        ) implies has_market(markets, listed_name(listed[i])) by {
        assert(front[i] == listed[i]);
    }
}

/// The entries of the exchange information; none where it has no such array.
pub open spec fn entries_of(listed: Option<Vec<ListedSymbol>>) -> Seq<ListedSymbol> {
    match listed {
        Some(entries) => entries@,
        None => Seq::empty(),
    }
}

/// Picks the markets of the configured symbols out of the exchange information. The symbols may
/// be written in any case; the exchange lists its own in upper case.
pub fn wanted_markets(symbols: &Vec<String>, listed: &Option<Vec<ListedSymbol>>) -> (r: Vec<
    MarketFilters,
>)
    ensures
        are_wanted_markets(uppercased(symbols@), entries_of(*listed), r@),
{
    let targets = target_symbols(symbols);
    select_markets(&targets, listed)
}

/// Picks the markets with the given names out of the exchange information.
pub fn select_markets(targets: &Vec<String>, listed: &Option<Vec<ListedSymbol>>) -> (r: Vec<
    MarketFilters,
>)
    ensures
        are_wanted_markets(texts(targets@), entries_of(*listed), r@),
{
    let mut markets: Vec<MarketFilters> = Vec::new();
    match listed {
        None => {},
        Some(entries) => {
            let mut i: usize = 0;
            while i < entries.len()
                invariant
                    i <= entries.len(),
                    are_wanted_markets(texts(targets@), entries@.take(i as int), markets@),
                decreases entries.len() - i,
            {
                let market = market_filters(&entries[i]);
                let ghost upto = entries@.take(i + 1);
                let ghost before = markets@;
                assert(upto.drop_last() =~= entries@.take(i as int));
                assert(upto.last() == entries@[i as int]);
                if is_target(targets, market.symbol.as_str()) {
                    match find_market(&markets, market.symbol.as_str()) {
                        Some(m) => {
                            markets.set(m, market);
                            proof {
                                lemma_market_added(
                                    texts(targets@),
                                    upto,
                                    before,
                                    market,
                                    markets@,
                                    m as int,
                                );
                            }
                        },
                        None => {
                            markets.push(market);
                            proof {
                                lemma_market_added(
                                    texts(targets@),
                                    upto,
                                    before,
                                    market,
                                    markets@,
                                    before.len() as int,
                                );
                            }
                        },
                    }
                } else {
                    proof {
                        lemma_market_skipped(texts(targets@), upto, before);
                    }
                }
                i = i + 1;
            }
            assert(entries@.take(i as int) =~= entries@);
        },
    }
    markets
}

} // verus!
