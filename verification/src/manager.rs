//! The registry of all books, by exchange and symbol.
use vstd::prelude::*;
use std::sync::Arc;

use crate::book::OrderBook;
use crate::init_market::find_market;
use crate::init_market::MarketFilters;
use crate::text::same_text;
use crate::text::to_lowercase;
use crate::text::to_uppercase;

verus! {

/// The asynchronous lock of the `tokio` crate. What a lock guards changes behind shared
/// references, so nothing is said of its present contents.
#[verifier::external_type_specification]
#[verifier::external_body]
#[verifier::reject_recursive_types(T)]
pub struct ExRwLock<T: ?Sized>(tokio::sync::RwLock<T>);

/// The book that a lock was made with.
pub uninterp spec fn opening_book(lock: tokio::sync::RwLock<OrderBook>) -> crate::book::BookState;

/// Calls `tokio::sync::RwLock::new`, and claims that the new lock holds the book it was given, and
/// that it is none of the locks that are already held: it is made anew and handed out by value.
#[verifier::external_body]
#[allow(unused_variables)]
fn lock_book(book: OrderBook, held: &Vec<(BookKey, SharedBook)>) -> (r: tokio::sync::RwLock<
    OrderBook,
>)
    ensures
        opening_book(r) == book@,
        forall|i: int| 0 <= i < held.len() ==> *(#[trigger] held@[i]).1 != r,
{
    tokio::sync::RwLock::new(book)
}

/// A book that tasks share.
pub type SharedBook = Arc<tokio::sync::RwLock<OrderBook>>;

/// The key of a book: the exchange in lower case, the symbol in upper case.
#[derive(Debug, Clone, PartialEq, Eq, Hash)]
pub struct BookKey {
    pub exchange: String,
    pub symbol: String,
}

impl View for BookKey {
    type V = (Seq<char>, Seq<char>);

    open spec fn view(&self) -> (Seq<char>, Seq<char>) {
        (self.exchange@, self.symbol@)
    }
}

/// The key under which the book of an exchange's symbol is kept.
pub open spec fn key_of(exchange: Seq<char>, symbol: Seq<char>) -> (Seq<char>, Seq<char>) {
    (crate::text::lowercase(exchange), crate::text::uppercase(symbol))
}

/// Whether no key occurs twice.
pub open spec fn distinct_keys<V>(entries: Seq<(BookKey, V)>) -> bool {
    forall|i: int, j: int|
        0 <= i < j < entries.len() ==> (#[trigger] entries[i]).0@ != (#[trigger] entries[j]).0@
}

/// What the entries map each key to.
pub open spec fn table<V>(entries: Seq<(BookKey, V)>) -> Map<(Seq<char>, Seq<char>), V>
    decreases entries.len(),
{
    if entries.len() == 0 {
        Map::empty()
    } else {
        table(entries.drop_last()).insert(entries.last().0@, entries.last().1)
    }
}

proof fn lemma_table_keys<V>(entries: Seq<(BookKey, V)>, key: (Seq<char>, Seq<char>))
    ensures
        table(entries).contains_key(key) <==> exists|i: int|
            0 <= i < entries.len() && (#[trigger] entries[i]).0@ == key,
    decreases entries.len(),
{
    if entries.len() > 0 {
        let front = entries.drop_last();
        lemma_table_keys(front, key);
        if table(front).contains_key(key) {
            let i = choose|i: int| 0 <= i < front.len() && (#[trigger] front[i]).0@ == key;
            assert(entries[i].0@ == key);
        }
        if exists|i: int| 0 <= i < entries.len() && (#[trigger] entries[i]).0@ == key {
            let i = choose|i: int| 0 <= i < entries.len() && (#[trigger] entries[i]).0@ == key;
            if i < front.len() {
                assert(front[i].0@ == key);
            }
        }
    }
}

proof fn lemma_table_entry<V>(entries: Seq<(BookKey, V)>, i: int)
    requires
        distinct_keys(entries),
        0 <= i < entries.len(),
    ensures
        table(entries).contains_key(entries[i].0@),
        table(entries)[entries[i].0@] == entries[i].1,
    decreases entries.len(),
{
    if i < entries.len() - 1 {
        assert(entries[i].0@ != entries[entries.len() - 1].0@);
        lemma_table_entry(entries.drop_last(), i);
    }
}

proof fn lemma_table_update<V>(entries: Seq<(BookKey, V)>, i: int, entry: (BookKey, V))
    requires
        distinct_keys(entries),
        0 <= i < entries.len(),
        entries[i].0@ == entry.0@,
    ensures
        table(entries.update(i, entry)) == table(entries).insert(entry.0@, entry.1),
        distinct_keys(entries.update(i, entry)),
    decreases entries.len(),
{
    let last = entries.len() - 1;
    let after = entries.update(i, entry);
    if i == last {
        assert(after.drop_last() =~= entries.drop_last());
    } else {
        lemma_table_update(entries.drop_last(), i, entry);
        assert(after.drop_last() =~= entries.drop_last().update(i, entry));
        assert(entries[i].0@ != entries[last].0@);
    }
    assert(table(after) =~= table(entries).insert(entry.0@, entry.1));
    assert forall|a: int, b: int| 0 <= a < b < after.len() implies (#[trigger] after[a]).0@ != (
    #[trigger] after[b]).0@ by {
        assert(entries[a].0@ != entries[b].0@);
    }
}

/// Where the entries hold the key.
fn find_entry<V>(entries: &Vec<(BookKey, V)>, key: &BookKey) -> (r: Option<usize>)
    ensures
        match r {
            Some(i) => i < entries.len() && entries@[i as int].0@ == key@,
            None => !table(entries@).contains_key(key@),
        },
{
    let mut i: usize = 0;
    while i < entries.len()
        invariant
            i <= entries.len(),
            forall|k: int| 0 <= k < i ==> (#[trigger] entries@[k]).0@ != key@,
        decreases entries.len() - i,
    {
        let entry = &entries[i].0;
        if same_text(entry.exchange.as_str(), key.exchange.as_str()) && same_text(
            entry.symbol.as_str(),
            key.symbol.as_str(),
        ) {
            return Some(i);
        }
        i = i + 1;
    }
    proof {
        lemma_table_keys(entries@, key@);
    }
    None
}

/// Maps the key to the value, in place of what it was mapped to before.
fn put_entry<V>(entries: &mut Vec<(BookKey, V)>, key: BookKey, value: V)
    requires
        distinct_keys(old(entries)@),
    ensures
        distinct_keys(final(entries)@),
        table(final(entries)@) == table(old(entries)@).insert(key@, value),
{
    match find_entry(entries, &key) {
        Some(i) => {
            proof {
                lemma_table_update(entries@, i as int, (key, value));
            }
            entries.set(i, (key, value));
        },
        None => {
            proof {
                lemma_table_keys(entries@, key@);
                assert(entries@.push((key, value)).drop_last() =~= entries@);
            }
            entries.push((key, value));
        },
    }
}

/// What a registry holds.
pub struct ManagerState {
    pub books: Map<(Seq<char>, Seq<char>), SharedBook>,
    pub filters: Map<(Seq<char>, Seq<char>), MarketFilters>,
}

impl ManagerState {
    /// The registry after `key` was registered: it has the filters and a book that was opened
    /// empty and is none of those that were registered before, and every other key is as it was.
    pub open spec fn registers(
        self,
        key: (Seq<char>, Seq<char>),
        filters: MarketFilters,
        after: ManagerState,
    ) -> bool {
        &&& after.filters == self.filters.insert(key, filters)
        &&& after.books == self.books.insert(key, after.books[key])
        &&& opening_book(*after.books[key]) == crate::book::BookState::fresh()
        &&& forall|other: (Seq<char>, Seq<char>)| #[trigger]
            self.books.contains_key(other) ==> self.books[other] != after.books[key]
    }

    /// No two keys share a book.
    pub open spec fn books_are_apart(self) -> bool {
        forall|a: (Seq<char>, Seq<char>), b: (Seq<char>, Seq<char>)|
            a != b && #[trigger] self.books.contains_key(a) && #[trigger] self.books.contains_key(b)
                ==> self.books[a] != self.books[b]
    }
}

/// Whether the symbol, put in upper case, has a market.
pub open spec fn is_listed(symbol: String, markets: Seq<MarketFilters>) -> bool {
    crate::init_market::has_market(markets, crate::text::uppercase(symbol@))
}

/// Whether every symbol has a market.
pub open spec fn all_listed(symbols: Seq<String>, markets: Seq<MarketFilters>) -> bool {
    forall|i: int| 0 <= i < symbols.len() ==> is_listed(#[trigger] symbols[i], markets)
}

/// The market with the given symbol.
pub open spec fn market_named(markets: Seq<MarketFilters>, name: Seq<char>) -> MarketFilters {
    markets[choose|m: int| 0 <= m < markets.len() && (#[trigger] markets[m]).symbol@ == name]
}

/// Whether one of the symbols is kept under `key`.
pub open spec fn is_key_of_one(
    exchange: Seq<char>,
    symbols: Seq<String>,
    key: (Seq<char>, Seq<char>),
) -> bool {
    exists|i: int| 0 <= i < symbols.len() && key_of(exchange, (#[trigger] symbols[i])@) == key
}

/// Whether no other symbol is kept under the key of the symbol at `i`.
pub open spec fn has_its_own_key(exchange: Seq<char>, symbols: Seq<String>, i: int) -> bool {
    forall|j: int|
        0 <= j < symbols.len() && j != i ==> key_of(exchange, (#[trigger] symbols[j])@) != key_of(
            exchange,
            symbols[i]@,
        )
}

impl ManagerState {
    /// The registry after all symbols were registered: the key of each has its market's filters
    /// and a book that was opened empty and that no other key has, and every other key is as it
    /// was. Where a key had a book before and was registered once, it has another one now.
    pub open spec fn registers_all(
        self,
        exchange: Seq<char>,
        symbols: Seq<String>,
        markets: Seq<MarketFilters>,
        after: ManagerState,
    ) -> bool {
        &&& forall|i: int|
            0 <= i < symbols.len() ==> {
                let key = key_of(exchange, (#[trigger] symbols[i])@);
                &&& after.filters.contains_key(key)
                &&& after.filters[key] == market_named(
                    markets,
                    crate::text::uppercase(symbols[i]@),
                )
                &&& after.books.contains_key(key)
                &&& opening_book(*after.books[key]) == crate::book::BookState::fresh()
            }
        &&& forall|key: (Seq<char>, Seq<char>)|
            !is_key_of_one(exchange, symbols, key) ==> {
                &&& #[trigger] after.filters.contains_key(key) == self.filters.contains_key(key)
                &&& self.filters.contains_key(key) ==> after.filters[key] == self.filters[key]
            }
        &&& forall|key: (Seq<char>, Seq<char>)|
            !is_key_of_one(exchange, symbols, key) ==> {
                &&& #[trigger] after.books.contains_key(key) == self.books.contains_key(key)
                &&& self.books.contains_key(key) ==> after.books[key] == self.books[key]
            }
        &&& forall|a: (Seq<char>, Seq<char>), b: (Seq<char>, Seq<char>)|
            is_key_of_one(exchange, symbols, a) && a != b && #[trigger] after.books.contains_key(a)
                && #[trigger] after.books.contains_key(b) ==> after.books[a] != after.books[b]
        &&& forall|i: int|
            0 <= i < symbols.len() && #[trigger] has_its_own_key(exchange, symbols, i)
                && self.books.contains_key(key_of(exchange, symbols[i]@))
                ==> after.books[key_of(exchange, symbols[i]@)] != self.books[key_of(
                exchange,
                symbols[i]@,
            )]
    }
}

proof fn lemma_registers_one_more(
    start: ManagerState,
    exchange: Seq<char>,
    symbols: Seq<String>,
    markets: Seq<MarketFilters>,
    m: int,
    before: ManagerState,
    after: ManagerState,
)
    requires
        symbols.len() > 0,
        crate::init_market::distinct_symbols(markets),
        0 <= m < markets.len(),
        markets[m].symbol@ == crate::text::uppercase(symbols.last()@),
        start.registers_all(exchange, symbols.drop_last(), markets, before),
        before.registers(key_of(exchange, symbols.last()@), markets[m], after),
    ensures
        start.registers_all(exchange, symbols, markets, after),
{
    let front = symbols.drop_last();
    let last = symbols.len() - 1;
    let new_key = key_of(exchange, symbols[last]@);
    let name = crate::text::uppercase(symbols[last]@);
    assert(market_named(markets, name) == markets[m]) by {
        let k = choose|k: int| 0 <= k < markets.len() && (#[trigger] markets[k]).symbol@ == name;
        assert(markets[m].symbol@ == name);
        if k < m {
            assert(markets[k].symbol@ != markets[m].symbol@);
        } else if m < k {
            assert(markets[m].symbol@ != markets[k].symbol@);
        }
    }
    assert forall|i: int| 0 <= i < symbols.len() implies {
        let key = key_of(exchange, (#[trigger] symbols[i])@);
        &&& after.filters.contains_key(key)
        &&& after.filters[key] == market_named(markets, crate::text::uppercase(symbols[i]@))
        &&& after.books.contains_key(key)
        &&& opening_book(*after.books[key]) == crate::book::BookState::fresh()
    } by {
        if i < last {
            assert(front[i] == symbols[i]);
        }
    }
    assert forall|key: (Seq<char>, Seq<char>)|
        !is_key_of_one(exchange, symbols, key) implies key != new_key && !is_key_of_one(
        exchange,
        front,
        key,
    ) by {
        if key == new_key {
            assert(key_of(exchange, symbols[last]@) == key);
        }
        if is_key_of_one(exchange, front, key) {
            let i = choose|i: int|
                0 <= i < front.len() && key_of(exchange, (#[trigger] front[i])@) == key;
            assert(key_of(exchange, symbols[i]@) == key);
        }
    }
    assert forall|a: (Seq<char>, Seq<char>), b: (Seq<char>, Seq<char>)|
        is_key_of_one(exchange, symbols, a) && a != b && #[trigger] after.books.contains_key(a)
            && #[trigger] after.books.contains_key(b) implies after.books[a] != after.books[b] by {
        if a != new_key {
            let i = choose|i: int|
                0 <= i < symbols.len() && key_of(exchange, (#[trigger] symbols[i])@) == a;
            assert(front[i] == symbols[i]);
            assert(is_key_of_one(exchange, front, a));
            assert(before.books.contains_key(a));
        }
        if b != new_key {
            assert(before.books.contains_key(b));
        }
    }
    assert forall|i: int|
        0 <= i < symbols.len() && #[trigger] has_its_own_key(exchange, symbols, i)
            && start.books.contains_key(
            key_of(exchange, symbols[i]@),
        ) implies after.books[key_of(exchange, symbols[i]@)] != start.books[key_of(
        exchange,
        symbols[i]@,
    )] by {
        let key = key_of(exchange, symbols[i]@);
        if i == last {
            assert(!is_key_of_one(exchange, front, key)) by {
                if is_key_of_one(exchange, front, key) {
                    let j = choose|j: int|
                        0 <= j < front.len() && key_of(exchange, (#[trigger] front[j])@) == key;
                    assert(key_of(exchange, symbols[j]@) == key);
                }
            }
            assert(before.books.contains_key(key));
        } else {
            assert(key_of(exchange, symbols[last]@) != key);
            assert(front[i] == symbols[i]);
            assert forall|j: int| 0 <= j < front.len() && j != i implies key_of(
                exchange,
                (#[trigger] front[j])@,
            ) != key_of(exchange, front[i]@) by {
                assert(front[j] == symbols[j]);
            }
            assert(has_its_own_key(exchange, front, i));
        }
    }
}

/// All books, and the trading rules of their symbols.
pub struct BookManager {
    pub books: Vec<(BookKey, SharedBook)>,
    pub filters_map: Vec<(BookKey, MarketFilters)>,
}

impl View for BookManager {
    type V = ManagerState;

    open spec fn view(&self) -> ManagerState {
        ManagerState { books: table(self.books@), filters: table(self.filters_map@) }
    }
}

impl BookManager {
    /// No key occurs twice, and a key has a book exactly where it has trading rules.
    pub open spec fn well_formed(&self) -> bool {
        &&& distinct_keys(self.books@)
        &&& distinct_keys(self.filters_map@)
        &&& self@.books.dom() == self@.filters.dom()
    }

    /// A registry without books.
    pub fn new() -> (r: BookManager)
        ensures
            r.well_formed(),
            r@.books == Map::<(Seq<char>, Seq<char>), SharedBook>::empty(),
            r@.filters == Map::<(Seq<char>, Seq<char>), MarketFilters>::empty(),
    {
        BookManager { books: Vec::new(), filters_map: Vec::new() }
    }

    /// Registers a symbol of an exchange with its trading rules and a book of its own, which
    /// holds nothing yet. What was registered under the same key is replaced.
    pub fn register_pair(&mut self, exchange: &str, symbol: &str, filters: MarketFilters)
        requires
            old(self).well_formed(),
        ensures
            final(self).well_formed(),
            old(self)@.registers(key_of(exchange@, symbol@), filters, final(self)@),
    {
        self.register_key(to_lowercase(exchange), to_uppercase(symbol), filters);
    }

    /// Registers an exchange and a symbol under exactly the given key.
    pub fn register_key(&mut self, exchange: String, symbol: String, filters: MarketFilters)
        requires
            old(self).well_formed(),
        ensures
            final(self).well_formed(),
            old(self)@.registers((exchange@, symbol@), filters, final(self)@),
    {
        let book = OrderBook::new(filters.price_precision as i32);
        let shared: SharedBook = Arc::new(lock_book(book, &self.books));
        proof {
            assert forall|other: (Seq<char>, Seq<char>)| #[trigger]
                self@.books.contains_key(other) implies self@.books[other] != shared by {
                lemma_table_keys(self.books@, other);
                let i = choose|i: int|
                    0 <= i < self.books.len() && (#[trigger] self.books@[i]).0@ == other;
                lemma_table_entry(self.books@, i);
                assert(*self.books@[i].1 != *shared);
            }
        }
        let book_key = BookKey { exchange: exchange.clone(), symbol: symbol.clone() };
        let filters_key = BookKey { exchange, symbol };
        put_entry(&mut self.books, book_key, shared);
        put_entry(&mut self.filters_map, filters_key, filters);
        assert(self@.books.dom() =~= self@.filters.dom());
    }

    /// The book of a symbol of an exchange, whatever the case they are written in.
    pub fn get_book(&self, exchange: &str, symbol: &str) -> (r: Option<SharedBook>)
        requires
            self.well_formed(),
        ensures
            r == if self@.books.contains_key(key_of(exchange@, symbol@)) {
                Some(self@.books[key_of(exchange@, symbol@)])
            } else {
                None
            },
    {
        let key = BookKey { exchange: to_lowercase(exchange), symbol: to_uppercase(symbol) };
        self.get_by_key(&key)
    }

    /// The book under exactly the given key.
    pub fn get_by_key(&self, key: &BookKey) -> (r: Option<SharedBook>)
        requires
            self.well_formed(),
        ensures
            r == if self@.books.contains_key(key@) {
                Some(self@.books[key@])
            } else {
                None
            },
    {
        match find_entry(&self.books, key) {
            Some(i) => {
                proof {
                    lemma_table_entry(self.books@, i as int);
                }
                Some(self.books[i].1.clone())
            },
            None => None,
        }
    }

    /// Registers the configured symbols of an exchange with the trading rules of their markets,
    /// in order. Stops at the first symbol that has no market, and returns where it stands.
    pub fn register_symbols(
        &mut self,
        exchange: &str,
        symbols: &Vec<String>,
        markets: &Vec<MarketFilters>,
    ) -> (r: Option<usize>)
        requires
            old(self).well_formed(),
            crate::init_market::distinct_symbols(markets@),
        ensures
            final(self).well_formed(),
            match r {
                Some(i) => {
                    &&& i < symbols.len()
                    &&& all_listed(symbols@.take(i as int), markets@)
                    &&& !is_listed(symbols@[i as int], markets@)
                    &&& old(self)@.registers_all(
                        exchange@,
                        symbols@.take(i as int),
                        markets@,
                        final(self)@,
                    )
                },
                None => {
                    &&& all_listed(symbols@, markets@)
                    &&& old(self)@.registers_all(exchange@, symbols@, markets@, final(self)@)
                },
            },
    {
        let mut i: usize = 0;
        while i < symbols.len()
            invariant
                i <= symbols.len(),
                self.well_formed(),
                crate::init_market::distinct_symbols(markets@),
                all_listed(symbols@.take(i as int), markets@),
                old(self)@.registers_all(
                    exchange@,
                    symbols@.take(i as int),
                    markets@,
                    self@,
                ),
            decreases symbols.len() - i,
        {
            let symbol = &symbols[i];
            let name = to_uppercase(symbol.as_str());
            match find_market(markets, name.as_str()) {
                Some(m) => {
                    let ghost before = self@;
                    let ghost upto = symbols@.take(i + 1);
                    self.register_pair(exchange, symbol.as_str(), markets[m].clone());
                    proof {
                        assert(upto.drop_last() =~= symbols@.take(i as int));
                        lemma_registers_one_more(
                            old(self)@,
                            exchange@,
                            upto,
                            markets@,
                            m as int,
                            before,
                            self@,
                        );
                        assert forall|k: int| 0 <= k < upto.len() implies is_listed(
                            #[trigger] upto[k],
                            markets@,
                        ) by {
                            if k < i {
                                assert(symbols@.take(i as int)[k] == upto[k]);
                            } else {
                                assert(markets@[m as int].symbol@ == name@);
                            }
                        }
                    }
                },
                None => {
                    return Some(i);
                },
            }
            i = i + 1;
        }
        assert(symbols@.take(i as int) =~= symbols@);
        None
    }
}

} // verus!
