//! The order book of one symbol.
use vstd::prelude::*;
use std::collections::BTreeMap;

use crate::amount::Amount;
use crate::fixed_point::read_fixed_point;
use crate::model::BinanceDepthUpdate;

verus! {

/// Whether a book can be trusted.
#[derive(Debug, PartialEq, Eq, Structural, Clone, Copy)]
pub enum BookStatus {
    /// No usable snapshot: at the start, or after a gap. Nothing can be processed.
    WaitingForSnapshot,
    /// In step with the exchange.
    Synced,
    /// The data is too old to act on.
    Stale,
}

/// One side of a book: quantities by fixed-point price.
pub type Side = Map<i64, Amount>;

/// `side` after one level was set: a zero quantity removes the level, any other replaces it.
pub open spec fn level_set(side: Side, price: i64, quantity: Amount) -> Side {
    if quantity.zero_quantity() {
        side.remove(price)
    } else {
        side.insert(price, quantity)
    }
}

/// `side` after the levels of `updates` were set one after the other.
pub open spec fn levels_set(side: Side, updates: Seq<(i64, Amount)>) -> Side
    decreases updates.len(),
{
    if updates.len() == 0 {
        side
    } else {
        level_set(levels_set(side, updates.drop_last()), updates.last().0, updates.last().1)
    }
}

/// Whether the price text of each level fits in a fixed-point price.
pub open spec fn prices_fit(levels: Seq<(&str, Amount)>) -> bool {
    forall|i: int|
        0 <= i < levels.len() ==> crate::fixed_point::fixed_point(#[trigger] levels[i].0@)
            <= i64::MAX
}

/// The levels with their price texts read.
pub open spec fn levels_read(levels: Seq<(&str, Amount)>) -> Seq<(i64, Amount)> {
    levels.map_values(
        |level: (&str, Amount)| (crate::fixed_point::fixed_point(level.0@) as i64, level.1),
    )
}

/// Whether no level of `side` has a zero quantity.
pub open spec fn no_empty_level(side: Side) -> bool {
    forall|p: i64| #[trigger] side.contains_key(p) ==> !side[p].zero_quantity()
}

/// What a book holds.
pub struct BookState {
    pub bids: Side,
    pub asks: Side,
    pub last_update_id: i64,
    pub status: BookStatus,
    pub last_snapshot_request_time: i64,
}

impl BookState {
    /// A book that holds nothing and waits for its first snapshot.
    pub open spec fn fresh() -> BookState {
        BookState {
            bids: Map::empty(),
            asks: Map::empty(),
            last_update_id: 0,
            status: BookStatus::WaitingForSnapshot,
            last_snapshot_request_time: 0,
        }
    }

    /// No level on either side has a zero quantity.
    pub open spec fn well_formed(self) -> bool {
        no_empty_level(self.bids) && no_empty_level(self.asks)
    }

    /// The book after one level was set.
    pub open spec fn with_level(self, price: i64, quantity: Amount, is_bid: bool) -> BookState {
        if is_bid {
            BookState { bids: level_set(self.bids, price, quantity), ..self }
        } else {
            BookState { asks: level_set(self.asks, price, quantity), ..self }
        }
    }

    /// The book after the levels of both sides were set in order.
    pub open spec fn with_levels(
        self,
        bids: Seq<(i64, Amount)>,
        asks: Seq<(i64, Amount)>,
    ) -> BookState {
        BookState { bids: levels_set(self.bids, bids), asks: levels_set(self.asks, asks), ..self }
    }

    /// The book after a snapshot was loaded: its levels alone, in step with the exchange.
    pub open spec fn with_snapshot(
        self,
        last_update_id: i64,
        bids: Seq<(i64, Amount)>,
        asks: Seq<(i64, Amount)>,
    ) -> BookState {
        BookState {
            bids: levels_set(Map::empty(), bids),
            asks: levels_set(Map::empty(), asks),
            last_update_id,
            status: BookStatus::Synced,
            ..self
        }
    }

    /// Whether an event with these ids continues the book.
    pub open spec fn continued_by(self, final_update_id: i64, prev_final_update_id: i64) -> bool {
        &&& self.status != BookStatus::WaitingForSnapshot
        &&& prev_final_update_id <= self.last_update_id < final_update_id
    }

    /// Whether an event with these ids shows that events before it were lost.
    pub open spec fn gap_before(self, final_update_id: i64, prev_final_update_id: i64) -> bool {
        &&& self.status != BookStatus::WaitingForSnapshot
        &&& self.last_update_id < final_update_id
        &&& self.last_update_id < prev_final_update_id
    }

    /// The book after the ids of an event were checked: advanced where the event continues it,
    /// waiting for a snapshot where events were lost, as it was otherwise.
    pub open spec fn after_event(self, final_update_id: i64, prev_final_update_id: i64) -> BookState {
        if self.continued_by(final_update_id, prev_final_update_id) {
            BookState { last_update_id: final_update_id, ..self }
        } else if self.gap_before(final_update_id, prev_final_update_id) {
            BookState { status: BookStatus::WaitingForSnapshot, ..self }
        } else {
            self
        }
    }

    /// The book after the latency of an event was measured: stale past the threshold, synced
    /// up to it. A book that waits for a snapshot goes on waiting.
    pub open spec fn after_latency(self, net_latency: int, threshold: int) -> BookState {
        if self.status == BookStatus::WaitingForSnapshot {
            self
        } else if net_latency > threshold {
            BookState { status: BookStatus::Stale, ..self }
        } else {
            BookState { status: BookStatus::Synced, ..self }
        }
    }

    /// Whether a depth update is accepted, once its latency was measured.
    pub open spec fn accepts(
        self,
        net_latency: int,
        threshold: int,
        final_update_id: i64,
        prev_final_update_id: i64,
    ) -> bool {
        self.after_latency(net_latency, threshold).continued_by(
            final_update_id,
            prev_final_update_id,
        )
    }

    /// The book after a depth update came in: judged by its latency, advanced or made to wait by
    /// its ids, and with its levels set where it is accepted.
    pub open spec fn processed(
        self,
        net_latency: int,
        threshold: int,
        final_update_id: i64,
        prev_final_update_id: i64,
        bids: Seq<(i64, Amount)>,
        asks: Seq<(i64, Amount)>,
    ) -> BookState {
        let checked = self.after_latency(net_latency, threshold).after_event(
            final_update_id,
            prev_final_update_id,
        );
        if self.accepts(net_latency, threshold, final_update_id, prev_final_update_id) {
            checked.with_levels(bids, asks)
        } else {
            checked
        }
    }

    /// Whether a new snapshot may be asked for at `now`.
    pub open spec fn snapshot_due(self, now: i64) -> bool {
        &&& self.status == BookStatus::WaitingForSnapshot
        &&& now - self.last_snapshot_request_time > SNAPSHOT_COOLDOWN_MS
    }
}

/// How many milliseconds must have passed before a snapshot is asked for again.
pub const SNAPSHOT_COOLDOWN_MS: i64 = 5000;

/// What the strategy loop does about a book.
#[derive(Debug, PartialEq, Eq, Structural, Clone, Copy)]
pub enum MonitorStep {
    /// The book is good: compute signals from it.
    Signal,
    /// The book is stale: do not act on it.
    Halt,
    /// The book has a gap: fetch a snapshot in the background.
    RequestSnapshot,
    /// The book has a gap, and a snapshot was asked for a moment ago.
    Wait,
}

/// The book of one symbol.
pub struct OrderBook {
    pub bids: BTreeMap<i64, Amount>,
    pub asks: BTreeMap<i64, Amount>,
    pub last_update_id: i64,
    pub status: BookStatus,
    /// When a snapshot was last asked for, in milliseconds; throttles the requests.
    pub last_snapshot_request_time: i64,
}

impl View for OrderBook {
    type V = BookState;

    open spec fn view(&self) -> BookState {
        BookState {
            bids: self.bids@,
            asks: self.asks@,
            last_update_id: self.last_update_id,
            status: self.status,
            last_snapshot_request_time: self.last_snapshot_request_time,
        }
    }
}

/// Whether `price` is the highest of `side`.
pub open spec fn is_highest(side: Side, price: i64) -> bool {
    side.contains_key(price) && forall|p: i64| #[trigger] side.contains_key(p) ==> p <= price
}

/// Whether `levels` are the `depth` best of `side`, best first, where higher prices are better.
pub open spec fn are_top_bids(side: Side, depth: nat, levels: Seq<(i64, Amount)>) -> bool {
    &&& levels.len() == if depth < side.dom().len() { depth } else { side.dom().len() }
    &&& forall|i: int, j: int|
        0 <= i < j < levels.len() ==> (#[trigger] levels[i]).0 > (#[trigger] levels[j]).0
    &&& forall|i: int|
        0 <= i < levels.len() ==> side.contains_key((#[trigger] levels[i]).0)
            && side[levels[i].0] == levels[i].1
    &&& forall|p: i64, i: int|
        #![trigger side.contains_key(p), levels[i]]
        side.contains_key(p) && 0 <= i < levels.len() && p > levels[i].0 ==> exists|j: int|
            0 <= j < i && (#[trigger] levels[j]).0 == p
}

/// Whether `levels` are the `depth` best of `side`, best first, where lower prices are better.
pub open spec fn are_top_asks(side: Side, depth: nat, levels: Seq<(i64, Amount)>) -> bool {
    &&& levels.len() == if depth < side.dom().len() { depth } else { side.dom().len() }
    &&& forall|i: int, j: int|
        0 <= i < j < levels.len() ==> (#[trigger] levels[i]).0 < (#[trigger] levels[j]).0
    &&& forall|i: int|
        0 <= i < levels.len() ==> side.contains_key((#[trigger] levels[i]).0)
            && side[levels[i].0] == levels[i].1
    &&& forall|p: i64, i: int|
        #![trigger side.contains_key(p), levels[i]]
        side.contains_key(p) && 0 <= i < levels.len() && p < levels[i].0 ==> exists|j: int|
            0 <= j < i && (#[trigger] levels[j]).0 == p
}

/// Whether `price` is the lowest of `side`.
pub open spec fn is_lowest(side: Side, price: i64) -> bool {
    side.contains_key(price) && forall|p: i64| #[trigger] side.contains_key(p) ==> price <= p
}

/// Takes the first of the remaining items off `it`, where one remains.
fn take_first<I: Iterator>(it: &mut I) -> (r: Option<I::Item>)
    ensures
        vstd::std_specs::iter::IteratorSpec::obeys_prophetic_iter_laws(old(it)) ==> {
            let remaining = vstd::std_specs::iter::IteratorSpec::remaining(old(it));
            &&& vstd::std_specs::iter::IteratorSpec::obeys_prophetic_iter_laws(final(it))
            &&& remaining.len() > 0 ==> r == Some(remaining[0])
                && vstd::std_specs::iter::IteratorSpec::remaining(final(it))
                == remaining.drop_first()
            &&& remaining.len() == 0 ==> r is None
        },
{
    it.next()
}

/// Takes the last of the remaining items off `it`, where one remains.
fn take_last<I: DoubleEndedIterator>(it: &mut I) -> (r: Option<I::Item>)
    ensures
        vstd::std_specs::iter::IteratorSpec::obeys_prophetic_iter_laws(old(it)) ==> {
            let remaining = vstd::std_specs::iter::IteratorSpec::remaining(old(it));
            &&& vstd::std_specs::iter::IteratorSpec::obeys_prophetic_iter_laws(final(it))
            &&& remaining.len() > 0 ==> r == Some(remaining.last())
                && vstd::std_specs::iter::IteratorSpec::remaining(final(it))
                == remaining.drop_last()
            &&& remaining.len() == 0 ==> r is None
        },
{
    it.next_back()
}

/// Whether `levels` lists all of `side`, lowest price first.
pub open spec fn is_listing(side: Side, levels: Seq<(i64, Amount)>) -> bool {
    &&& forall|i: int, j: int|
        0 <= i < j < levels.len() ==> (#[trigger] levels[i]).0 < (#[trigger] levels[j]).0
    &&& forall|i: int|
        0 <= i < levels.len() ==> side.contains_key((#[trigger] levels[i]).0)
            && side[levels[i].0] == levels[i].1
    &&& forall|p: i64| #[trigger]
        side.contains_key(p) ==> exists|i: int| 0 <= i < levels.len() && (#[trigger] levels[i]).0 == p
}

/// Prices are keys that a tree map can order.
proof fn lemma_price_keys()
    ensures
        vstd::laws_cmp::obeys_cmp::<i64>(),
        vstd::std_specs::btree::key_obeys_cmp_spec::<i64>(),
{
    broadcast use vstd::laws_cmp::group_laws_cmp;
    broadcast use vstd::std_specs::btree::group_btree_axioms;

}

/// What a walk over a tree map yields is a listing of the map.
proof fn lemma_walk_is_listing(side: Side, walk: Seq<(&i64, &Amount)>)
    requires
        forall|i: int|
            0 <= i < walk.len() ==> side.contains_key(*(#[trigger] walk[i]).0) && side[*walk[i].0]
                == *walk[i].1,
        forall|p: i64| #[trigger] side.contains_key(p) ==> walk.contains((&p, &side[p])),
        vstd::std_specs::btree::increasing_seq(
            walk.map_values(|level: (&i64, &Amount)| *level.0),
        ),
    ensures
        is_listing(side, walk.map_values(|level: (&i64, &Amount)| (*level.0, *level.1))),
{
    broadcast use vstd::laws_cmp::group_laws_cmp;
    broadcast use vstd::std_specs::btree::group_btree_axioms;

    assert(vstd::laws_cmp::obeys_cmp::<i64>());
    let prices = walk.map_values(|level: (&i64, &Amount)| *level.0);
    let levels = walk.map_values(|level: (&i64, &Amount)| (*level.0, *level.1));
    assert forall|i: int, j: int| 0 <= i < j < levels.len() implies (#[trigger] levels[i]).0 < (
    #[trigger] levels[j]).0 by {
        assert(vstd::std_specs::cmp::OrdSpec::cmp_spec(&prices[i], &prices[j]) is Less);
        assert(prices[i] < prices[j]);
    }
    assert forall|p: i64| #[trigger] side.contains_key(p) implies exists|i: int|
        0 <= i < levels.len() && (#[trigger] levels[i]).0 == p by {
        let i = choose|i: int| 0 <= i < walk.len() && walk[i] == (&p, &side[p]);
        assert(levels[i].0 == p);
    }
}

proof fn lemma_walk_ends(side: Side, walk: Seq<(&i64, &Amount)>)
    requires
        forall|i: int|
            0 <= i < walk.len() ==> side.contains_key(*(#[trigger] walk[i]).0) && side[*walk[i].0]
                == *walk[i].1,
        forall|p: i64| #[trigger] side.contains_key(p) ==> walk.contains((&p, &side[p])),
        vstd::std_specs::btree::increasing_seq(
            walk.map_values(|level: (&i64, &Amount)| *level.0),
        ),
    ensures
        walk.len() == 0 ==> side.dom().is_empty(),
        walk.len() > 0 ==> {
            &&& is_lowest(side, *walk[0].0)
            &&& side[*walk[0].0] == *walk[0].1
            &&& is_highest(side, *walk.last().0)
            &&& side[*walk.last().0] == *walk.last().1
        },
{
    lemma_walk_is_listing(side, walk);
    let levels = walk.map_values(|level: (&i64, &Amount)| (*level.0, *level.1));
    if walk.len() == 0 {
        assert(side.dom() =~= Set::empty());
    } else {
        let top = levels.len() - 1;
        assert forall|p: i64| #[trigger] side.contains_key(p) implies levels[0].0 <= p
            <= levels[top].0 by {
            let i = choose|i: int| 0 <= i < levels.len() && (#[trigger] levels[i]).0 == p;
            assert(i == top || levels[i].0 < levels[top].0);
            assert(i == 0 || levels[0].0 < levels[i].0);
        }
        assert(levels[0].0 == *walk[0].0);
        assert(levels[top].0 == *walk.last().0);
    }
}

/// The `n` last items of a walk, last first.
spec fn last_first(walk: Seq<(&i64, &Amount)>, n: int) -> Seq<(i64, Amount)> {
    Seq::new(
        n as nat,
        |i: int| (*walk[walk.len() - 1 - i].0, *walk[walk.len() - 1 - i].1),
    )
}

proof fn lemma_walk_top(side: Side, walk: Seq<(&i64, &Amount)>, depth: nat, n: int)
    requires
        walk.len() == side.dom().len(),
        n == if depth < walk.len() { depth } else { walk.len() },
        forall|i: int|
            0 <= i < walk.len() ==> side.contains_key(*(#[trigger] walk[i]).0) && side[*walk[i].0]
                == *walk[i].1,
        forall|p: i64| #[trigger] side.contains_key(p) ==> walk.contains((&p, &side[p])),
        vstd::std_specs::btree::increasing_seq(
            walk.map_values(|level: (&i64, &Amount)| *level.0),
        ),
    ensures
        are_top_bids(side, depth, last_first(walk, n)),
        are_top_asks(
            side,
            depth,
            walk.map_values(|level: (&i64, &Amount)| (*level.0, *level.1)).take(n),
        ),
{
    lemma_walk_is_listing(side, walk);
    let levels = walk.map_values(|level: (&i64, &Amount)| (*level.0, *level.1));
    let bids = last_first(walk, n);
    let asks = levels.take(n);
    assert forall|i: int| 0 <= i < n implies (#[trigger] bids[i]) == levels[levels.len() - 1 - i] by {}
    assert forall|p: i64, i: int|
        #![trigger side.contains_key(p), bids[i]]
        side.contains_key(p) && 0 <= i < n && p > bids[i].0 implies exists|j: int|
        0 <= j < i && (#[trigger] bids[j]).0 == p by {
        let k = choose|k: int| 0 <= k < levels.len() && (#[trigger] levels[k]).0 == p;
        let j = levels.len() - 1 - k;
        if j >= i {
            assert(bids[i] == levels[levels.len() - 1 - i]);
            assert(k == levels.len() - 1 - i || levels[k].0 < levels[levels.len() - 1 - i].0);
        }
        assert(bids[j].0 == p);
    }
    assert forall|p: i64, i: int|
        #![trigger side.contains_key(p), asks[i]]
        side.contains_key(p) && 0 <= i < n && p < asks[i].0 implies exists|j: int|
        0 <= j < i && (#[trigger] asks[j]).0 == p by {
        let k = choose|k: int| 0 <= k < levels.len() && (#[trigger] levels[k]).0 == p;
        if k >= i {
            assert(k == i || levels[i].0 < levels[k].0);
        }
        assert(asks[k].0 == p);
    }
}

fn all_levels(side: &BTreeMap<i64, Amount>) -> (r: Vec<(i64, Amount)>)
    ensures
        is_listing(side@, r@),
{
    broadcast use vstd::std_specs::btree::group_btree_axioms;

    proof {
        lemma_price_keys();
    }
    let mut out: Vec<(i64, Amount)> = Vec::new();
    let it = side.iter();
    let ghost walk = vstd::std_specs::iter::IteratorSpec::remaining(&it);
    for level in walker: it
        invariant
            walker.seq() == walk,
            out@ == walk.take(walker.index()).map_values(
                |level: (&i64, &Amount)| (*level.0, *level.1),
            ),
    {
        out.push((*level.0, *level.1));
    }
    proof {
        lemma_walk_is_listing(side@, walk);
        assert(walk.take(walk.len() as int) =~= walk);
    }
    out
}

fn top_bids(side: &BTreeMap<i64, Amount>, depth: usize) -> (r: Vec<(i64, Amount)>)
    ensures
        are_top_bids(side@, depth as nat, r@),
{
    broadcast use vstd::std_specs::btree::group_btree_axioms;

    proof {
        lemma_price_keys();
    }
    let mut out: Vec<(i64, Amount)> = Vec::new();
    let mut it = side.iter();
    let ghost walk = vstd::std_specs::iter::IteratorSpec::remaining(&it);
    while out.len() < depth
        invariant_except_break
            out.len() <= depth,
            out.len() <= walk.len(),
            vstd::std_specs::iter::IteratorSpec::obeys_prophetic_iter_laws(&it),
            vstd::std_specs::iter::IteratorSpec::remaining(&it) == walk.take(
                walk.len() - out.len(),
            ),
        invariant
            out@ == last_first(walk, out.len() as int),
        ensures
            out.len() == if depth < walk.len() { depth as nat } else { walk.len() },
        decreases depth - out.len(),
    {
        match take_last(&mut it) {
            Some((price, quantity)) => {
                out.push((*price, *quantity));
            },
            None => {
                break;
            },
        }
    }
    proof {
        lemma_walk_top(side@, walk, depth as nat, out.len() as int);
    }
    out
}

fn top_asks(side: &BTreeMap<i64, Amount>, depth: usize) -> (r: Vec<(i64, Amount)>)
    ensures
        are_top_asks(side@, depth as nat, r@),
{
    broadcast use vstd::std_specs::btree::group_btree_axioms;

    proof {
        lemma_price_keys();
    }
    let mut out: Vec<(i64, Amount)> = Vec::new();
    let mut it = side.iter();
    let ghost walk = vstd::std_specs::iter::IteratorSpec::remaining(&it);
    while out.len() < depth
        invariant_except_break
            out.len() <= depth,
            out.len() <= walk.len(),
            vstd::std_specs::iter::IteratorSpec::obeys_prophetic_iter_laws(&it),
            vstd::std_specs::iter::IteratorSpec::remaining(&it) == walk.skip(out.len() as int),
        invariant
            out@ == walk.map_values(|level: (&i64, &Amount)| (*level.0, *level.1)).take(
                out.len() as int,
            ),
        ensures
            out.len() == if depth < walk.len() { depth as nat } else { walk.len() },
        decreases depth - out.len(),
    {
        match take_first(&mut it) {
            Some((price, quantity)) => {
                out.push((*price, *quantity));
            },
            None => {
                break;
            },
        }
    }
    proof {
        lemma_walk_top(side@, walk, depth as nat, out.len() as int);
    }
    out
}

impl OrderBook {
    /// A book that holds nothing and waits for its first snapshot. Whatever precision the
    /// exchange reports, prices are kept with eight decimals.
    pub fn new(_precision: i32) -> (r: OrderBook)
        ensures
            r@ == BookState::fresh(),
    {
        OrderBook {
            bids: BTreeMap::new(),
            asks: BTreeMap::new(),
            last_update_id: 0,
            status: BookStatus::WaitingForSnapshot,
            last_snapshot_request_time: 0,
        }
    }

    /// Replaces the book by a snapshot and marks it synced.
    pub fn load_snapshot(
        &mut self,
        last_update_id: i64,
        bids: &[(&str, Amount)],
        asks: &[(&str, Amount)],
    )
        requires
            prices_fit(bids@),
            prices_fit(asks@),
        ensures
            final(self)@ == old(self)@.with_snapshot(
                last_update_id,
                levels_read(bids@),
                levels_read(asks@),
            ),
    {
        self.bids.clear();
        self.asks.clear();
        self.update_levels(bids, asks);
        self.last_update_id = last_update_id;
        self.status = BookStatus::Synced;
    }

    /// Sets one level of one side; a zero quantity removes it.
    pub fn apply_update(&mut self, price: i64, quantity: Amount, is_bid: bool)
        ensures
            final(self)@ == old(self)@.with_level(price, quantity, is_bid),
    {
        broadcast use vstd::std_specs::btree::group_btree_axioms;

        proof {
            lemma_price_keys();
        }
        if is_bid {
            if quantity.is_zero() {
                self.bids.remove(&price);
            } else {
                self.bids.insert(price, quantity);
            }
        } else {
            if quantity.is_zero() {
                self.asks.remove(&price);
            } else {
                self.asks.insert(price, quantity);
            }
        }
    }

    /// The level with the highest bid price, where there is a bid.
    pub fn get_best_bid(&self) -> (r: Option<(&i64, &Amount)>)
        ensures
            match r {
                Some((price, quantity)) => is_highest(self@.bids, *price) && *quantity
                    == self@.bids[*price],
                None => self@.bids.dom().is_empty(),
            },
    {
        broadcast use vstd::std_specs::btree::group_btree_axioms;

        proof {
            lemma_price_keys();
        }
        let mut it = self.bids.iter();
        proof {
            lemma_walk_ends(self.bids@, vstd::std_specs::iter::IteratorSpec::remaining(&it));
        }
        take_last(&mut it)
    }

    /// The level with the lowest ask price, where there is an ask.
    pub fn get_best_ask(&self) -> (r: Option<(&i64, &Amount)>)
        ensures
            match r {
                Some((price, quantity)) => is_lowest(self@.asks, *price) && *quantity
                    == self@.asks[*price],
                None => self@.asks.dom().is_empty(),
            },
    {
        broadcast use vstd::std_specs::btree::group_btree_axioms;

        proof {
            lemma_price_keys();
        }
        let mut it = self.asks.iter();
        proof {
            lemma_walk_ends(self.asks@, vstd::std_specs::iter::IteratorSpec::remaining(&it));
        }
        take_first(&mut it)
    }

    /// Checks the ids of an event against the book: `final_update_id` is the last update of the
    /// event, `prev_final_update_id` the last of the event before it. Returns whether the levels
    /// of the event are to be applied. An event that ends before the book does is dropped; one
    /// that does not follow on shows a gap, and the book then waits for a snapshot.
    pub fn handle_event(
        &mut self,
        _first_update_id: i64,
        final_update_id: i64,
        prev_final_update_id: i64,
    ) -> (r: bool)
        ensures
            r == old(self)@.continued_by(final_update_id, prev_final_update_id),
            final(self)@ == old(self)@.after_event(final_update_id, prev_final_update_id),
    {
        if self.status == BookStatus::WaitingForSnapshot {
            return false;
        }
        if final_update_id <= self.last_update_id {
            return false;
        }
        if prev_final_update_id > self.last_update_id {
            self.status = BookStatus::WaitingForSnapshot;
            return false;
        }
        self.last_update_id = final_update_id;
        true
    }

    /// Reads the price texts and sets the levels of both sides in order.
    pub fn update_levels(&mut self, bids: &[(&str, Amount)], asks: &[(&str, Amount)])
        requires
            prices_fit(bids@),
            prices_fit(asks@),
        ensures
            final(self)@ == old(self)@.with_levels(levels_read(bids@), levels_read(asks@)),
    {
        let ghost read_bids = levels_read(bids@);
        let ghost read_asks = levels_read(asks@);
        let mut i: usize = 0;
        assert(read_bids.take(0) =~= Seq::<(i64, Amount)>::empty());
        while i < bids.len()
            invariant
                i <= bids.len(),
                prices_fit(bids@),
                read_bids == levels_read(bids@),
                self@ == (BookState {
                    bids: levels_set(old(self)@.bids, read_bids.take(i as int)),
                    ..old(self)@
                }),
            decreases bids.len() - i,
        {
            let (price_text, quantity) = bids[i];
            let price = Self::fast_parse_price(price_text);
            self.apply_update(price, quantity, true);
            assert(read_bids.take(i + 1).drop_last() =~= read_bids.take(i as int));
            i = i + 1;
        }
        assert(read_bids.take(i as int) =~= read_bids);
        let mut j: usize = 0;
        assert(read_asks.take(0) =~= Seq::<(i64, Amount)>::empty());
        while j < asks.len()
            invariant
                j <= asks.len(),
                prices_fit(asks@),
                read_asks == levels_read(asks@),
                self@ == (BookState {
                    bids: levels_set(old(self)@.bids, read_bids),
                    asks: levels_set(old(self)@.asks, read_asks.take(j as int)),
                    ..old(self)@
                }),
            decreases asks.len() - j,
        {
            let (price_text, quantity) = asks[j];
            let price = Self::fast_parse_price(price_text);
            self.apply_update(price, quantity, false);
            assert(read_asks.take(j + 1).drop_last() =~= read_asks.take(j as int));
            j = j + 1;
        }
        assert(read_asks.take(j as int) =~= read_asks);
    }

    /// Sets the levels of both sides in order, from prices that are already read.
    pub fn update_pure_numbers(&mut self, bids: &[(i64, Amount)], asks: &[(i64, Amount)])
        ensures
            final(self)@ == old(self)@.with_levels(bids@, asks@),
    {
        let mut i: usize = 0;
        assert(bids@.take(0) =~= Seq::<(i64, Amount)>::empty());
        while i < bids.len()
            invariant
                i <= bids.len(),
                self@ == (BookState {
                    bids: levels_set(old(self)@.bids, bids@.take(i as int)),
                    ..old(self)@
                }),
            decreases bids.len() - i,
        {
            let (price, quantity) = bids[i];
            self.apply_update(price, quantity, true);
            assert(bids@.take(i + 1).drop_last() =~= bids@.take(i as int));
            i = i + 1;
        }
        assert(bids@.take(i as int) =~= bids@);
        let mut j: usize = 0;
        assert(asks@.take(0) =~= Seq::<(i64, Amount)>::empty());
        while j < asks.len()
            invariant
                j <= asks.len(),
                self@ == (BookState {
                    bids: levels_set(old(self)@.bids, bids@),
                    asks: levels_set(old(self)@.asks, asks@.take(j as int)),
                    ..old(self)@
                }),
            decreases asks.len() - j,
        {
            let (price, quantity) = asks[j];
            self.apply_update(price, quantity, false);
            assert(asks@.take(j + 1).drop_last() =~= asks@.take(j as int));
            j = j + 1;
        }
        assert(asks@.take(j as int) =~= asks@);
    }

    /// Reads a decimal text as a price with eight implied decimals. Decimals past the eighth are
    /// cut off, missing ones are zero.
    pub fn fast_parse_price(s: &str) -> (r: i64)
        requires
            crate::fixed_point::fixed_point(s@) <= i64::MAX,
        ensures
            r == crate::fixed_point::fixed_point(s@),
    {
        read_fixed_point(s).unwrap() as i64
    }

    /// The best bid and the best ask price, whose mean is the mid price; nothing where a side is
    /// empty.
    pub fn get_mid_price(&self) -> (r: Option<(i64, i64)>)
        ensures
            match r {
                Some((bid, ask)) => is_highest(self@.bids, bid) && is_lowest(self@.asks, ask),
                None => self@.bids.dom().is_empty() || self@.asks.dom().is_empty(),
            },
    {
        match self.get_best_bid() {
            Some((bid, _)) => match self.get_best_ask() {
                Some((ask, _)) => {
                    assert(self@.bids.dom().contains(*bid));
                    assert(self@.asks.dom().contains(*ask));
                    Some((*bid, *ask))
                },
                None => None,
            },
            None => None,
        }
    }

    /// The `depth` best levels of each side, best first: bids from the highest price down, asks
    /// from the lowest price up. The imbalance weighs the quantities of the one against those of
    /// the other.
    pub fn get_deep_imbalance(&self, depth: usize) -> (r: (Vec<(i64, Amount)>, Vec<(i64, Amount)>))
        ensures
            are_top_bids(self@.bids, depth as nat, r.0@),
            are_top_asks(self@.asks, depth as nat, r.1@),
    {
        (top_bids(&self.bids, depth), top_asks(&self.asks, depth))
    }

    /// All bids, lowest price first.
    pub fn bid_levels(&self) -> (r: Vec<(i64, Amount)>)
        ensures
            is_listing(self@.bids, r@),
    {
        all_levels(&self.bids)
    }

    /// All asks, lowest price first.
    pub fn ask_levels(&self) -> (r: Vec<(i64, Amount)>)
        ensures
            is_listing(self@.asks, r@),
    {
        all_levels(&self.asks)
    }

    /// Marks the book stale, as when its connection is lost.
    pub fn mark_stale(&mut self)
        ensures
            final(self)@ == (BookState { status: BookStatus::Stale, ..old(self)@ }),
    {
        self.status = BookStatus::Stale;
    }

    /// Judges the book by the corrected latency of the event at hand. A book that waits for a
    /// snapshot goes on waiting, however fast the event came.
    pub fn assess_latency(&mut self, net_latency: i128, threshold: i64)
        ensures
            final(self)@ == old(self)@.after_latency(net_latency as int, threshold as int),
    {
        if self.status != BookStatus::WaitingForSnapshot {
            if net_latency > threshold as i128 {
                self.status = BookStatus::Stale;
            } else {
                self.status = BookStatus::Synced;
            }
        }
    }

    /// Judges the latency of a depth update and checks its ids. Returns whether its levels are
    /// to be applied.
    pub fn accept_update(
        &mut self,
        net_latency: i128,
        threshold: i64,
        update: &BinanceDepthUpdate,
    ) -> (r: bool)
        ensures
            r == old(self)@.accepts(
                net_latency as int,
                threshold as int,
                update.final_update_id,
                update.prev_final_update_id,
            ),
            final(self)@ == old(self)@.after_latency(
                net_latency as int,
                threshold as int,
            ).after_event(update.final_update_id, update.prev_final_update_id),
    {
        self.assess_latency(net_latency, threshold);
        self.handle_event(
            update.first_update_id,
            update.final_update_id,
            update.prev_final_update_id,
        )
    }

    /// Takes in a depth update: judges its latency, checks its ids and, where it is accepted,
    /// sets its levels. Returns whether it was accepted.
    pub fn process_update(
        &mut self,
        net_latency: i128,
        threshold: i64,
        update: &BinanceDepthUpdate,
        bids: &[(&str, Amount)],
        asks: &[(&str, Amount)],
    ) -> (r: bool)
        requires
            prices_fit(bids@),
            prices_fit(asks@),
        ensures
            r == old(self)@.accepts(
                net_latency as int,
                threshold as int,
                update.final_update_id,
                update.prev_final_update_id,
            ),
            final(self)@ == old(self)@.processed(
                net_latency as int,
                threshold as int,
                update.final_update_id,
                update.prev_final_update_id,
                levels_read(bids@),
                levels_read(asks@),
            ),
    {
        let accepted = self.accept_update(net_latency, threshold, update);
        if accepted {
            self.update_levels(bids, asks);
        }
        accepted
    }

    /// Whether the book is to be saved now: at a scheduled moment, and only while it is synced.
    pub fn backup_due(&self, scheduled: bool) -> (r: bool)
        ensures
            r == (scheduled && self@.status == BookStatus::Synced),
    {
        scheduled && self.status == BookStatus::Synced
    }

    /// Decides what the strategy loop does about the book at `now`, in milliseconds. A snapshot
    /// is asked for at most once per cooldown, and the time of the request is kept.
    pub fn monitor(&mut self, now: i64) -> (r: MonitorStep)
        ensures
            r == match old(self)@.status {
                BookStatus::Synced => MonitorStep::Signal,
                BookStatus::Stale => MonitorStep::Halt,
                BookStatus::WaitingForSnapshot => if old(self)@.snapshot_due(now) {
                    MonitorStep::RequestSnapshot
                } else {
                    MonitorStep::Wait
                },
            },
            final(self)@ == if old(self)@.snapshot_due(now) {
                BookState { last_snapshot_request_time: now, ..old(self)@ }
            } else {
                old(self)@
            },
    {
        match self.status {
            BookStatus::Synced => MonitorStep::Signal,
            BookStatus::Stale => MonitorStep::Halt,
            BookStatus::WaitingForSnapshot => {
                let waited: i128 = now as i128 - self.last_snapshot_request_time as i128;
                if waited > SNAPSHOT_COOLDOWN_MS as i128 {
                    self.last_snapshot_request_time = now;
                    MonitorStep::RequestSnapshot
                } else {
                    MonitorStep::Wait
                }
            },
        }
    }
}

} // verus!
