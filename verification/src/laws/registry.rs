//! How books are kept and found.
use vstd::prelude::*;

use crate::book::BookState;
use crate::init_market::MarketFilters;
use crate::manager::BookKey;
use crate::manager::BookManager;
use crate::manager::ManagerState;

verus! {

/// Two spellings are kept under one key exactly where the exchanges agree in lower case and the
/// symbols in upper case.
pub proof fn law_keys_fold_the_case(
    exchange: Seq<char>,
    symbol: Seq<char>,
    other_exchange: Seq<char>,
    other_symbol: Seq<char>,
)
    ensures
        crate::manager::key_of(exchange, symbol).0 == crate::text::lowercase(exchange),
        crate::manager::key_of(exchange, symbol).1 == crate::text::uppercase(symbol),
        crate::manager::key_of(exchange, symbol) == crate::manager::key_of(
            other_exchange,
            other_symbol,
        ) <==> {
            &&& crate::text::lowercase(exchange) == crate::text::lowercase(other_exchange)
            &&& crate::text::uppercase(symbol) == crate::text::uppercase(other_symbol)
        },
{
}

/// A table maps the keys of its entries and no other; where no key occurs twice, it maps each to
/// the value of its entry.
pub proof fn law_table_maps_every_entry<V>(
    entries: Seq<(BookKey, V)>,
    key: (Seq<char>, Seq<char>),
    i: int,
    j: int,
)
    ensures
        crate::manager::table(entries).contains_key(key) <==> exists|k: int|
            {
                &&& 0 <= k < entries.len()
                &&& (#[trigger] entries[k]).0.exchange@ == key.0
                &&& entries[k].0.symbol@ == key.1
            },
        crate::manager::distinct_keys(entries) && 0 <= i < entries.len()
            ==> crate::manager::table(entries)[(
            entries[i].0.exchange@,
            entries[i].0.symbol@,
        )] == entries[i].1,
        crate::manager::distinct_keys(entries) && 0 <= i < j < entries.len()
            ==> entries[i].0.exchange@ != entries[j].0.exchange@ || entries[i].0.symbol@
            != entries[j].0.symbol@,
        !crate::manager::distinct_keys(entries) ==> exists|a: int, b: int|
            {
                &&& 0 <= a < b < entries.len()
                &&& (#[trigger] entries[a]).0.exchange@ == (#[trigger] entries[b]).0.exchange@
                &&& entries[a].0.symbol@ == entries[b].0.symbol@
            },
    decreases entries.len(),
{
    if entries.len() > 0 {
        let front = entries.drop_last();
        let end = entries.len() - 1;
        law_table_maps_every_entry(front, key, i, j);
        assert(entries.last() == entries[end]);
        if crate::manager::table(front).contains_key(key) {
            let k = choose|k: int|
                {
                    &&& 0 <= k < front.len()
                    &&& (#[trigger] front[k]).0.exchange@ == key.0
                    &&& front[k].0.symbol@ == key.1
                };
            assert(entries[k] == front[k]);
        }
        if exists|k: int|
            {
                &&& 0 <= k < entries.len()
                &&& (#[trigger] entries[k]).0.exchange@ == key.0
                &&& entries[k].0.symbol@ == key.1
            } {
            let k = choose|k: int|
                {
                    &&& 0 <= k < entries.len()
                    &&& (#[trigger] entries[k]).0.exchange@ == key.0
                    &&& entries[k].0.symbol@ == key.1
                };
            if k < end {
                assert(front[k] == entries[k]);
            }
        }
        if crate::manager::distinct_keys(entries) {
            assert(crate::manager::distinct_keys(front)) by {
                assert forall|a: int, b: int| 0 <= a < b < front.len() implies (
                #[trigger] front[a]).0@ != (#[trigger] front[b]).0@ by {
                    assert(entries[a].0@ != entries[b].0@);
                }
            }
            if 0 <= i < end {
                assert(front[i] == entries[i]);
                assert(entries[i].0@ != entries[end].0@);
            }
        }
    }
    if crate::manager::distinct_keys(entries) && 0 <= i < j < entries.len() {
        assert(entries[i].0@ != entries[j].0@);
    }
    if !crate::manager::distinct_keys(entries) {
        let (a, b) = choose|a: int, b: int|
            0 <= a < b < entries.len() && (#[trigger] entries[a]).0@ == (#[trigger] entries[b]).0@;
        assert(entries[a].0.exchange@ == entries[b].0.exchange@);
        assert(entries[a].0.symbol@ == entries[b].0.symbol@);
    }
}

/// A registry is in order exactly where no key occurs twice and each key has both a book and
/// rules.
pub proof fn law_registry_is_in_order(manager: BookManager, key: (Seq<char>, Seq<char>))
    ensures
        manager@.books == crate::manager::table(manager.books@),
        manager@.filters == crate::manager::table(manager.filters_map@),
        manager.well_formed() ==> {
            &&& crate::manager::distinct_keys(manager.books@)
            &&& crate::manager::distinct_keys(manager.filters_map@)
            &&& manager@.books.contains_key(key) <==> manager@.filters.contains_key(key)
        },
        crate::manager::distinct_keys(manager.books@) && crate::manager::distinct_keys(
            manager.filters_map@,
        ) && (forall|k: (Seq<char>, Seq<char>)| #[trigger]
            manager@.books.contains_key(k) <==> manager@.filters.contains_key(k))
            ==> manager.well_formed(),
{
    if manager.well_formed() {
        assert(manager@.books.dom().contains(key) == manager@.filters.dom().contains(key));
    }
    if forall|k: (Seq<char>, Seq<char>)| #[trigger]
        manager@.books.contains_key(k) <==> manager@.filters.contains_key(k) {
        assert forall|k: (Seq<char>, Seq<char>)| manager@.books.dom().contains(k)
            == manager@.filters.dom().contains(k) by {
            assert(manager@.books.contains_key(k) <==> manager@.filters.contains_key(k));
        }
        assert(manager@.books.dom() =~= manager@.filters.dom());
    }
}

/// Registering all symbols gives every one of them the rules of a market that bears its name in
/// upper case and a book that was opened empty, which no other key has; and nothing is changed
/// under any key that is not of one of them.
pub proof fn law_every_symbol_is_registered(
    before: ManagerState,
    exchange: Seq<char>,
    symbols: Seq<String>,
    markets: Seq<MarketFilters>,
    after: ManagerState,
    i: int,
    other: (Seq<char>, Seq<char>),
)
    requires
        before.registers_all(exchange, symbols, markets, after),
        crate::manager::all_listed(symbols, markets),
    ensures
        0 <= i < symbols.len() ==> {
            let key = (crate::text::lowercase(exchange), crate::text::uppercase(symbols[i]@));
            &&& after.books.contains_key(key)
            &&& after.filters.contains_key(key)
            &&& exists|m: int|
                0 <= m < markets.len() && (#[trigger] markets[m]).symbol@
                    == crate::text::uppercase(symbols[i]@) && after.filters[key] == markets[m]
            &&& crate::manager::opening_book(*after.books[key]) == BookState::fresh()
            &&& other != key && after.books.contains_key(other) ==> after.books[other]
                != after.books[key]
        },
        (forall|k: int|
            0 <= k < symbols.len() ==> (
                crate::text::lowercase(exchange),
                crate::text::uppercase((#[trigger] symbols[k])@),
            ) != other) ==> {
            &&& after.books.contains_key(other) == before.books.contains_key(other)
            &&& before.books.contains_key(other) ==> after.books[other] == before.books[other]
            &&& after.filters.contains_key(other) == before.filters.contains_key(other)
            &&& before.filters.contains_key(other) ==> after.filters[other]
                == before.filters[other]
        },
{
    if 0 <= i < symbols.len() {
        let key = crate::manager::key_of(exchange, symbols[i]@);
        let name = crate::text::uppercase(symbols[i]@);
        assert(crate::manager::is_listed(symbols[i], markets));
        let m = choose|m: int| 0 <= m < markets.len() && (#[trigger] markets[m]).symbol@ == name;
        assert(after.filters[key] == crate::manager::market_named(markets, name));
        assert(crate::manager::is_key_of_one(exchange, symbols, key));
    }
    if forall|k: int|
        0 <= k < symbols.len() ==> (
            crate::text::lowercase(exchange),
            crate::text::uppercase((#[trigger] symbols[k])@),
        ) != other {
        if crate::manager::is_key_of_one(exchange, symbols, other) {
            let k = choose|k: int|
                0 <= k < symbols.len() && crate::manager::key_of(exchange, (#[trigger] symbols[k])@)
                    == other;
            assert((crate::text::lowercase(exchange), crate::text::uppercase(symbols[k]@))
                == other);
        }
        assert(!crate::manager::is_key_of_one(exchange, symbols, other));
        assert(after.filters.contains_key(other) == before.filters.contains_key(other));
        assert(after.books.contains_key(other) == before.books.contains_key(other));
    }
}

/// No two keys share a book exactly where books under different keys differ.
pub proof fn law_books_are_apart_key_by_key(
    registry: ManagerState,
    a: (Seq<char>, Seq<char>),
    b: (Seq<char>, Seq<char>),
)
    requires
        registry.books_are_apart(),
        registry.books.contains_key(a),
        registry.books.contains_key(b),
    ensures
        registry.books[a] == registry.books[b] ==> a == b,
{
}

} // verus!
