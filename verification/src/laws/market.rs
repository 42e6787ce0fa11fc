//! What is read out of the exchange information and out of the levels of a message.
use vstd::prelude::*;

use crate::amount::Amount;
use crate::init_market::ListedFilter;
use crate::init_market::ListedSymbol;
use crate::init_market::MarketFilters;
use crate::storage::TickData;

verus! {

// ---- exchange information ----

/// Whether the filter states the type with this name.
pub open spec fn states_type(filter: ListedFilter, name: Seq<char>) -> bool {
    filter.filter_type is Some && filter.filter_type->0@ == name
}

/// Whether `filters[i]` is the last one of the type with this name.
pub open spec fn is_last_of_type(filters: Seq<ListedFilter>, name: Seq<char>, i: int) -> bool {
    &&& 0 <= i < filters.len()
    &&& states_type(filters[i], name)
    &&& forall|j: int| i < j < filters.len() ==> !states_type(#[trigger] filters[j], name)
}

/// Whether no filter is of the type with this name.
pub open spec fn has_none_of_type(filters: Seq<ListedFilter>, name: Seq<char>) -> bool {
    forall|j: int| 0 <= j < filters.len() ==> !states_type(#[trigger] filters[j], name)
}

/// Whether `stated` is this size; one that is not stated is zero.
pub open spec fn is_size(size: Amount, stated: Option<Amount>) -> bool {
    &&& stated is Some ==> size == stated->0
    &&& stated is None ==> size.bits == 0
}

/// Each size is that of the last filter of its type, whatever filters of other types stand around
/// it, and zero where there is no filter of its type.
pub proof fn law_each_size_is_of_its_last_filter(filters: Seq<ListedFilter>, i: int)
    ensures
        ({
            let sizes = crate::init_market::sizes_of(filters);
            &&& is_last_of_type(filters, "PRICE_FILTER"@, i) ==> is_size(
                sizes.tick_size,
                filters[i].tick_size,
            )
            &&& is_last_of_type(filters, "LOT_SIZE"@, i) ==> is_size(
                sizes.step_size,
                filters[i].step_size,
            ) && is_size(sizes.min_qty, filters[i].min_qty)
            &&& has_none_of_type(filters, "PRICE_FILTER"@) ==> sizes.tick_size.bits == 0
            &&& has_none_of_type(filters, "LOT_SIZE"@) ==> sizes.step_size.bits == 0
                && sizes.min_qty.bits == 0
        }),
    decreases filters.len(),
{
    reveal_strlit("PRICE_FILTER");
    reveal_strlit("LOT_SIZE");
    assert("PRICE_FILTER"@.len() != "LOT_SIZE"@.len());
    if filters.len() > 0 {
        let front = filters.drop_last();
        let end = filters.len() - 1;
        law_each_size_is_of_its_last_filter(front, i);
        assert(filters.last() == filters[end]);
        assert forall|j: int| 0 <= j < front.len() implies front[j] == filters[j] by {}
        if i < end {
            assert(is_last_of_type(filters, "PRICE_FILTER"@, i) ==> !states_type(
                filters[end],
                "PRICE_FILTER"@,
            ));
            assert(is_last_of_type(filters, "LOT_SIZE"@, i) ==> !states_type(
                filters[end],
                "LOT_SIZE"@,
            ));
        }
    }
}

/// Whether `precision` is what is stated; a market that states none has two decimals.
pub open spec fn is_precision(precision: usize, stated: Option<u64>) -> bool {
    &&& stated is Some ==> precision == stated->0 as usize
    &&& stated is None ==> precision == 2
}

/// Whether the rules of a market are those that an entry of the exchange information states.
pub open spec fn states_rules(listed: ListedSymbol, market: MarketFilters) -> bool {
    &&& listed.symbol is Some ==> market.symbol@ == listed.symbol->0@
    &&& listed.symbol is None ==> market.symbol@.len() == 0
    &&& is_precision(market.price_precision, listed.price_precision)
    &&& is_precision(market.qty_precision, listed.quantity_precision)
    &&& listed.filters is Some ==> {
        let filters = listed.filters->0@;
        &&& forall|i: int|
            #![trigger filters[i]]
            is_last_of_type(filters, "PRICE_FILTER"@, i) ==> is_size(
                market.tick_size,
                filters[i].tick_size,
            )
        &&& forall|i: int|
            #![trigger filters[i]]
            is_last_of_type(filters, "LOT_SIZE"@, i) ==> is_size(
                market.step_size,
                filters[i].step_size,
            ) && is_size(market.min_qty, filters[i].min_qty)
        &&& has_none_of_type(filters, "PRICE_FILTER"@) ==> market.tick_size.bits == 0
        &&& has_none_of_type(filters, "LOT_SIZE"@) ==> market.step_size.bits == 0
            && market.min_qty.bits == 0
    }
    &&& listed.filters is None ==> market.tick_size.bits == 0 && market.step_size.bits == 0
        && market.min_qty.bits == 0
}

/// A market holds what its entry states, member by member.
pub proof fn law_market_holds_what_is_stated(market: MarketFilters, listed: ListedSymbol)
    requires
        crate::init_market::describes(market, listed),
    ensures
        states_rules(listed, market),
{
    if listed.filters is Some {
        let filters = listed.filters->0@;
        law_each_size_is_of_its_last_filter(filters, 0);
        assert forall|i: int|
            #![trigger filters[i]]
            is_last_of_type(filters, "PRICE_FILTER"@, i) implies is_size(
            market.tick_size,
            filters[i].tick_size,
        ) by {
            law_each_size_is_of_its_last_filter(filters, i);
        }
        assert forall|i: int|
            #![trigger filters[i]]
            is_last_of_type(filters, "LOT_SIZE"@, i) implies is_size(
            market.step_size,
            filters[i].step_size,
        ) && is_size(market.min_qty, filters[i].min_qty) by {
            law_each_size_is_of_its_last_filter(filters, i);
        }
    }
}

/// Whether the entry has this name; one without a name has the empty one.
pub open spec fn is_named(listed: ListedSymbol, name: Seq<char>) -> bool {
    (listed.symbol is Some && listed.symbol->0@ == name) || (listed.symbol is None && name.len()
        == 0)
}

/// The markets of the configured symbols: each symbol that an entry names in upper case has
/// exactly one market, with the rules of the last such entry; and there is no other market.
pub proof fn law_wanted_markets_are_the_configured_ones(
    symbols: Seq<String>,
    entries: Vec<ListedSymbol>,
    markets: Seq<MarketFilters>,
    s: int,
    m: int,
    n: int,
)
    requires
        crate::init_market::are_wanted_markets(
            crate::init_market::uppercased(symbols),
            crate::init_market::entries_of(Some(entries)),
            markets,
        ),
        0 <= s < symbols.len(),
    ensures
        (exists|i: int|
            0 <= i < entries@.len() && is_named(
                #[trigger] entries@[i],
                crate::text::uppercase(symbols[s]@),
            )) ==> exists|k: int|
            0 <= k < markets.len() && (#[trigger] markets[k]).symbol@ == crate::text::uppercase(
                symbols[s]@,
            ),
        0 <= m < n < markets.len() ==> markets[m].symbol@ != markets[n].symbol@,
        0 <= m < markets.len() ==> exists|k: int|
            0 <= k < symbols.len() && crate::text::uppercase((#[trigger] symbols[k])@)
                == markets[m].symbol@,
        0 <= m < markets.len() ==> exists|i: int|
            {
                &&& 0 <= i < entries@.len()
                &&& is_named(#[trigger] entries@[i], markets[m].symbol@)
                &&& states_rules(entries@[i], markets[m])
                &&& forall|j: int|
                    i < j < entries@.len() ==> !is_named(#[trigger] entries@[j], markets[m].symbol@)
            },
{
    let targets = crate::init_market::uppercased(symbols);
    let listed = crate::init_market::entries_of(Some(entries));
    let name = crate::text::uppercase(symbols[s]@);
    assert(listed == entries@);
    assert forall|l: ListedSymbol, t: Seq<char>|
        is_named(l, t) == (crate::init_market::listed_name(l) == t) by {
        if t.len() == 0 {
            assert(t =~= Seq::<char>::empty());
        }
    }
    if exists|i: int| 0 <= i < entries@.len() && is_named(#[trigger] entries@[i], name) {
        let i = choose|i: int| 0 <= i < entries@.len() && is_named(#[trigger] entries@[i], name);
        assert(is_named(listed[i], name));
        assert(targets[s] == name);
        assert(targets.contains(crate::init_market::listed_name(listed[i])));
        assert(crate::init_market::has_market(markets, name));
    }
    if 0 <= m < markets.len() {
        let own = markets[m].symbol@;
        assert(targets.contains(own));
        let k = choose|k: int| 0 <= k < targets.len() && targets[k] == own;
        assert(crate::text::uppercase(symbols[k]@) == own);
        assert(crate::init_market::stated_last(listed, markets[m]));
        let i = choose|i: int|
            crate::init_market::is_last_entry(listed, own, i) && crate::init_market::describes(
                markets[m],
                listed[i],
            );
        law_market_holds_what_is_stated(markets[m], listed[i]);
        assert(is_named(entries@[i], own));
        assert forall|j: int| i < j < entries@.len() implies !is_named(
            #[trigger] entries@[j],
            own,
        ) by {
            assert(crate::init_market::listed_name(listed[j]) != own);
        }
    }
}

/// Where the exchange information has no entries, there is no market; and the names that are
/// looked for are all configured symbols, each in its place.
pub proof fn law_names_are_looked_for(
    symbols: Seq<String>,
    targets: Seq<Seq<char>>,
    markets: Seq<MarketFilters>,
    s: int,
)
    ensures
        crate::init_market::uppercased(symbols).len() == symbols.len(),
        crate::init_market::texts(symbols).len() == symbols.len(),
        0 <= s < symbols.len() ==> {
            &&& crate::init_market::uppercased(symbols)[s] == crate::text::uppercase(symbols[s]@)
            &&& crate::init_market::texts(symbols)[s] == symbols[s]@
        },
        crate::init_market::are_wanted_markets(
            targets,
            crate::init_market::entries_of(None),
            markets,
        ) ==> markets.len() == 0,
{
    if crate::init_market::are_wanted_markets(
        targets,
        crate::init_market::entries_of(None),
        markets,
    ) && markets.len() > 0 {
        assert(crate::init_market::stated_last(Seq::empty(), markets[0]));
    }
}

/// A market has a symbol exactly where one of the markets is of that symbol, and symbols are
/// distinct exactly where no two markets are of the same.
pub proof fn law_symbols_are_compared_as_they_stand(
    markets: Seq<MarketFilters>,
    symbols: Seq<String>,
    name: Seq<char>,
    i: int,
    j: int,
)
    ensures
        crate::init_market::has_market(markets, name) <==> exists|m: int|
            0 <= m < markets.len() && (#[trigger] markets[m]).symbol@ == name,
        crate::init_market::distinct_symbols(markets) && 0 <= i < j < markets.len()
            ==> markets[i].symbol@ != markets[j].symbol@,
        !crate::init_market::distinct_symbols(markets) ==> exists|a: int, b: int|
            0 <= a < b < markets.len() && (#[trigger] markets[a]).symbol@ == (#[trigger] markets[
                b]).symbol@,
        0 <= i < symbols.len() ==> (crate::manager::is_listed(symbols[i], markets) <==> exists|
            m: int,
        |
            0 <= m < markets.len() && (#[trigger] markets[m]).symbol@ == crate::text::uppercase(
                symbols[i]@,
            )),
        crate::manager::all_listed(symbols, markets) && 0 <= i < symbols.len()
            ==> crate::manager::is_listed(symbols[i], markets),
        !crate::manager::all_listed(symbols, markets) ==> exists|a: int|
            0 <= a < symbols.len() && !crate::manager::is_listed(#[trigger] symbols[a], markets),
{
}

// ---- levels ----

/// The pairs of a list of levels are put together from those of its parts. A level with exactly two
/// texts is the pair of them; any other one gives none.
pub proof fn law_levels_are_paired_one_by_one(
    first: Seq<Vec<String>>,
    level: Vec<String>,
    second: Seq<Vec<String>>,
)
    ensures
        crate::levels::exact_pairs(Seq::empty()).len() == 0,
        crate::levels::exact_pairs(first + second) == crate::levels::exact_pairs(first)
            + crate::levels::exact_pairs(second),
        level@.len() == 2 ==> crate::levels::exact_pairs(seq![level]) == seq![
            (level@[0]@, level@[1]@),
        ],
        level@.len() != 2 ==> crate::levels::exact_pairs(seq![level]).len() == 0,
    decreases second.len(),
{
    let one = seq![level];
    assert(one.drop_last() =~= Seq::<Vec<String>>::empty());
    assert(one.last() == level);
    reveal_with_fuel(crate::levels::exact_pairs, 2);
    if level@.len() == 2 {
        assert(crate::levels::exact_pairs(one) =~= seq![(level@[0]@, level@[1]@)]);
    }
    if second.len() == 0 {
        assert(first + second =~= first);
        assert(crate::levels::exact_pairs(first) + crate::levels::exact_pairs(second)
            =~= crate::levels::exact_pairs(first));
    } else {
        law_levels_are_paired_one_by_one(first, level, second.drop_last());
        assert((first + second).drop_last() =~= first + second.drop_last());
        assert((first + second).last() == second.last());
        assert(crate::levels::exact_pairs(first + second) =~= crate::levels::exact_pairs(first)
            + crate::levels::exact_pairs(second));
    }
}

/// The texts of some pairs are all their texts, and the pair of a level is its first two texts.
pub proof fn law_pairs_keep_their_texts(pairs: Seq<(&str, &str)>, level: Vec<String>, i: int)
    ensures
        crate::levels::pair_texts(pairs).len() == pairs.len(),
        0 <= i < pairs.len() ==> {
            &&& crate::levels::pair_texts(pairs)[i].0 == pairs[i].0@
            &&& crate::levels::pair_texts(pairs)[i].1 == pairs[i].1@
        },
        crate::levels::pair_of(level).0 == level@[0]@,
        crate::levels::pair_of(level).1 == level@[1]@,
{
}

/// The levels of an update can be applied exactly where each of them has a price and a quantity,
/// and the price is one of 63 bits.
pub proof fn law_levels_are_usable_one_by_one(
    first: Seq<Vec<String>>,
    level: Vec<String>,
    second: Seq<Vec<String>>,
)
    ensures
        crate::levels::all_usable(Seq::empty()),
        crate::levels::all_usable(seq![level]) <==> level@.len() >= 2
            && crate::fixed_point::fixed_point(level@[0]@) < 0x8000_0000_0000_0000,
        crate::levels::all_usable(first + second) <==> crate::levels::all_usable(first)
            && crate::levels::all_usable(second),
{
    let one = seq![level];
    assert(one[0] == level);
    let both = first + second;
    if crate::levels::all_usable(both) {
        assert forall|i: int| 0 <= i < first.len() implies (#[trigger] first[i])@.len() >= 2
            && crate::fixed_point::fixed_point(first[i]@[0]@) <= i64::MAX by {
            assert(both[i] == first[i]);
        }
        assert forall|i: int| 0 <= i < second.len() implies (#[trigger] second[i])@.len() >= 2
            && crate::fixed_point::fixed_point(second[i]@[0]@) <= i64::MAX by {
            assert(both[first.len() + i] == second[i]);
        }
    }
}

/// A tick keeps all of the level it records: when it came, of which symbol, price, quantity and
/// side.
pub proof fn law_tick_keeps_its_level(
    tick: TickData,
    timestamp: i64,
    symbol: Seq<char>,
    level: (&str, Amount),
    is_bid: bool,
)
    requires
        crate::levels::records(tick, timestamp, symbol, level, is_bid),
    ensures
        tick.timestamp == timestamp,
        tick.symbol@ == symbol,
        tick.price == crate::fixed_point::fixed_point(level.0@),
        tick.qty == level.1,
        tick.is_bid == is_bid,
{
}

} // verus!
