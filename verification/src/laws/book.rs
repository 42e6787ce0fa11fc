//! What a book keeps of the messages it takes in, and what it gives back.
use vstd::prelude::*;

use crate::amount::Amount;
use crate::book::BookState;
use crate::book::BookStatus;
use crate::book::OrderBook;
use crate::book::Side;
use crate::laws::Event;

verus! {

/// A quantity is zero exactly where nothing is left of it but its sign, which is the highest bit.
pub proof fn law_only_the_sign_of_zero_is_free(quantity: Amount)
    ensures
        quantity.zero_quantity() <==> quantity.bits as int % 0x8000_0000_0000_0000 == 0,
{
}

/// Whether `levels[i]` is the last of the levels that names its price.
pub open spec fn is_last_of_its_price(levels: Seq<(i64, Amount)>, i: int) -> bool {
    &&& 0 <= i < levels.len()
    &&& forall|j: int| i < j < levels.len() ==> (#[trigger] levels[j]).0 != levels[i].0
}

/// Whether `after` is `before` with every one of the levels set: each price that is named has the
/// quantity named last, or is gone where that is zero, and each other price is as it was.
pub open spec fn shows(before: Side, levels: Seq<(i64, Amount)>, after: Side) -> bool {
    &&& forall|i: int|
        #![trigger levels[i]]
        is_last_of_its_price(levels, i) ==> {
            let (price, quantity) = levels[i];
            if quantity.bits as int % 0x8000_0000_0000_0000 == 0 {
                !after.contains_key(price)
            } else {
                after.contains_key(price) && after[price] == quantity
            }
        }
    &&& forall|price: i64|
        (forall|i: int| 0 <= i < levels.len() ==> (#[trigger] levels[i]).0 != price) ==> {
            &&& #[trigger] after.contains_key(price) == before.contains_key(price)
            &&& before.contains_key(price) ==> after[price] == before[price]
        }
}

/// Whether `levels[i]` is the last of the levels whose text writes its price.
pub open spec fn is_last_of_its_text(levels: Seq<(&str, Amount)>, i: int) -> bool {
    &&& 0 <= i < levels.len()
    &&& forall|j: int|
        i < j < levels.len() ==> crate::fixed_point::fixed_point((#[trigger] levels[j]).0@)
            != crate::fixed_point::fixed_point(levels[i].0@)
}

/// The same of levels whose prices are texts.
pub open spec fn shows_texts(before: Side, levels: Seq<(&str, Amount)>, after: Side) -> bool {
    &&& forall|i: int|
        #![trigger levels[i]]
        is_last_of_its_text(levels, i) ==> {
            let price = crate::fixed_point::fixed_point(levels[i].0@) as i64;
            let quantity = levels[i].1;
            if quantity.bits as int % 0x8000_0000_0000_0000 == 0 {
                !after.contains_key(price)
            } else {
                after.contains_key(price) && after[price] == quantity
            }
        }
    &&& forall|price: i64|
        (forall|i: int|
            0 <= i < levels.len() ==> crate::fixed_point::fixed_point((#[trigger] levels[i]).0@)
                != price) ==> {
            &&& #[trigger] after.contains_key(price) == before.contains_key(price)
            &&& before.contains_key(price) ==> after[price] == before[price]
        }
}

/// Reading a list of levels keeps every one of them, in its place, with the price that its text
/// writes and its quantity.
pub proof fn law_every_level_is_read(levels: Seq<(&str, Amount)>, i: int)
    ensures
        crate::book::levels_read(levels).len() == levels.len(),
        0 <= i < levels.len() ==> {
            let (price, quantity) = crate::book::levels_read(levels)[i];
            &&& price == crate::fixed_point::fixed_point(levels[i].0@) as i64
            &&& quantity == levels[i].1
        },
{
}

/// The price texts of some levels fit exactly where each of them writes a price of 63 bits.
pub proof fn law_prices_fit_one_by_one(
    first: Seq<(&str, Amount)>,
    level: (&str, Amount),
    second: Seq<(&str, Amount)>,
)
    ensures
        crate::book::prices_fit(Seq::<(&str, Amount)>::empty()),
        crate::book::prices_fit(seq![level]) <==> crate::fixed_point::fixed_point(level.0@)
            < 0x8000_0000_0000_0000,
        crate::book::prices_fit(first + second) <==> crate::book::prices_fit(first)
            && crate::book::prices_fit(second),
{
    let one = seq![level];
    assert(one[0] == level);
    let both = first + second;
    if crate::book::prices_fit(both) {
        assert forall|i: int| 0 <= i < first.len() implies crate::fixed_point::fixed_point(
            #[trigger] first[i].0@,
        ) <= i64::MAX by {
            assert(both[i] == first[i]);
        }
        assert forall|i: int| 0 <= i < second.len() implies crate::fixed_point::fixed_point(
            #[trigger] second[i].0@,
        ) <= i64::MAX by {
            assert(both[first.len() + i] == second[i]);
        }
    }
}

proof fn lemma_shows(before: Side, levels: Seq<(i64, Amount)>)
    ensures
        shows(before, levels, crate::book::levels_set(before, levels)),
{
    let after = crate::book::levels_set(before, levels);
    assert forall|i: int|
        #![trigger levels[i]]
        is_last_of_its_price(levels, i) implies {
        let (price, quantity) = levels[i];
        if quantity.bits as int % 0x8000_0000_0000_0000 == 0 {
            !after.contains_key(price)
        } else {
            after.contains_key(price) && after[price] == quantity
        }
    } by {
        crate::laws::law_last_setting_counts(before, levels, i, levels[i].0);
        law_only_the_sign_of_zero_is_free(levels[i].1);
    }
    assert forall|price: i64|
        (forall|i: int| 0 <= i < levels.len() ==> (#[trigger] levels[i]).0 != price) implies {
        &&& #[trigger] after.contains_key(price) == before.contains_key(price)
        &&& before.contains_key(price) ==> after[price] == before[price]
    } by {
        crate::laws::law_last_setting_counts(before, levels, 0, price);
    }
}

proof fn lemma_shows_texts(before: Side, levels: Seq<(&str, Amount)>, after: Side)
    requires
        crate::book::prices_fit(levels),
        shows(before, crate::book::levels_read(levels), after),
    ensures
        shows_texts(before, levels, after),
{
    let read = crate::book::levels_read(levels);
    assert forall|i: int|
        #![trigger levels[i]]
        is_last_of_its_text(levels, i) implies {
        let price = crate::fixed_point::fixed_point(levels[i].0@) as i64;
        let quantity = levels[i].1;
        if quantity.bits as int % 0x8000_0000_0000_0000 == 0 {
            !after.contains_key(price)
        } else {
            after.contains_key(price) && after[price] == quantity
        }
    } by {
        assert(crate::fixed_point::fixed_point(levels[i].0@) <= i64::MAX);
        assert forall|j: int| i < j < read.len() implies (#[trigger] read[j]).0 != read[i].0 by {
            assert(crate::fixed_point::fixed_point(levels[j].0@) <= i64::MAX);
        }
        assert(is_last_of_its_price(read, i));
        assert(read[i].1 == levels[i].1);
    }
    assert forall|price: i64|
        (forall|i: int|
            0 <= i < levels.len() ==> crate::fixed_point::fixed_point((#[trigger] levels[i]).0@)
                != price) implies {
        &&& #[trigger] after.contains_key(price) == before.contains_key(price)
        &&& before.contains_key(price) ==> after[price] == before[price]
    } by {
        assert forall|i: int| 0 <= i < read.len() implies (#[trigger] read[i]).0 != price by {
            assert(crate::fixed_point::fixed_point(levels[i].0@) <= i64::MAX);
            assert(crate::fixed_point::fixed_point(levels[i].0@) != price);
        }
    }
}

/// A snapshot is loaded whole: the book then holds every bid and every ask of it and nothing else,
/// has its id, and is synced. When a snapshot was last asked for stays as it was.
pub proof fn law_snapshot_is_loaded_whole(
    book: BookState,
    id: i64,
    bids: Seq<(&str, Amount)>,
    asks: Seq<(&str, Amount)>,
)
    requires
        crate::book::prices_fit(bids),
        crate::book::prices_fit(asks),
    ensures
        ({
            let after = book.with_snapshot(
                id,
                crate::book::levels_read(bids),
                crate::book::levels_read(asks),
            );
            &&& shows_texts(Map::empty(), bids, after.bids)
            &&& shows_texts(Map::empty(), asks, after.asks)
            &&& after.last_update_id == id
            &&& after.status == BookStatus::Synced
            &&& after.last_snapshot_request_time == book.last_snapshot_request_time
        }),
{
    let none: Side = Map::empty();
    let after = book.with_snapshot(
        id,
        crate::book::levels_read(bids),
        crate::book::levels_read(asks),
    );
    lemma_shows(none, crate::book::levels_read(bids));
    lemma_shows(none, crate::book::levels_read(asks));
    lemma_shows_texts(none, bids, after.bids);
    lemma_shows_texts(none, asks, after.asks);
}

/// Levels given as texts are set on their own side, every one of them, and nothing else changes.
pub proof fn law_level_texts_are_all_set(
    book: BookState,
    bids: Seq<(&str, Amount)>,
    asks: Seq<(&str, Amount)>,
)
    requires
        crate::book::prices_fit(bids),
        crate::book::prices_fit(asks),
    ensures
        ({
            let after = book.with_levels(
                crate::book::levels_read(bids),
                crate::book::levels_read(asks),
            );
            &&& shows_texts(book.bids, bids, after.bids)
            &&& shows_texts(book.asks, asks, after.asks)
            &&& after.last_update_id == book.last_update_id
            &&& after.status == book.status
            &&& after.last_snapshot_request_time == book.last_snapshot_request_time
        }),
{
    let after = book.with_levels(crate::book::levels_read(bids), crate::book::levels_read(asks));
    lemma_shows(book.bids, crate::book::levels_read(bids));
    lemma_shows(book.asks, crate::book::levels_read(asks));
    lemma_shows_texts(book.bids, bids, after.bids);
    lemma_shows_texts(book.asks, asks, after.asks);
}

/// Levels given as numbers are set on their own side, every one of them, and nothing else changes.
pub proof fn law_levels_are_all_set(
    book: BookState,
    bids: Seq<(i64, Amount)>,
    asks: Seq<(i64, Amount)>,
)
    ensures
        ({
            let after = book.with_levels(bids, asks);
            &&& shows(book.bids, bids, after.bids)
            &&& shows(book.asks, asks, after.asks)
            &&& after.last_update_id == book.last_update_id
            &&& after.status == book.status
            &&& after.last_snapshot_request_time == book.last_snapshot_request_time
        }),
{
    lemma_shows(book.bids, bids);
    lemma_shows(book.asks, asks);
}

/// One level is set on its side alone.
pub proof fn law_one_level_is_set(book: BookState, price: i64, quantity: Amount)
    ensures
        shows(book.bids, seq![(price, quantity)], book.with_level(price, quantity, true).bids),
        shows(book.asks, seq![(price, quantity)], book.with_level(price, quantity, false).asks),
        book.with_level(price, quantity, true).asks == book.asks,
        book.with_level(price, quantity, false).bids == book.bids,
{
    let one = seq![(price, quantity)];
    assert(one.drop_last() =~= Seq::<(i64, Amount)>::empty());
    assert(one.last() == (price, quantity));
    reveal_with_fuel(crate::book::levels_set, 2);
    lemma_shows(book.bids, one);
    lemma_shows(book.asks, one);
}

/// A new book holds no level and waits for a snapshot, and one is asked for as soon as more than
/// the cooldown has passed since the epoch.
pub proof fn law_new_book_waits_for_a_snapshot(price: i64, now: i64)
    ensures
        !BookState::fresh().bids.contains_key(price),
        !BookState::fresh().asks.contains_key(price),
        BookState::fresh().last_update_id == 0,
        BookState::fresh().status == BookStatus::WaitingForSnapshot,
        BookState::fresh().snapshot_due(now) <==> now > 5000,
{
}

/// An event is accepted exactly where it continues a book that does not wait: its ids alone
/// decide, whatever the levels of the book, the latency, and whether the book was stale.
pub proof fn law_ids_decide_what_is_accepted(book: BookState, threshold: int, event: Event)
    ensures
        book.accepts(event.latency, threshold, event.final_id, event.prev_id) <==> {
            &&& book.status != BookStatus::WaitingForSnapshot
            &&& event.prev_id <= book.last_update_id
            &&& book.last_update_id < event.final_id
        },
        book.continued_by(event.final_id, event.prev_id) <==> {
            &&& book.status != BookStatus::WaitingForSnapshot
            &&& event.prev_id <= book.last_update_id
            &&& book.last_update_id < event.final_id
        },
{
}

/// The check of an event's ids advances a book that is continued to the end of the event, makes
/// one wait that has missed something, and leaves every other as it was; it never touches a level.
pub proof fn law_ids_advance_or_stop_a_book(book: BookState, final_id: i64, prev_id: i64)
    ensures
        ({
            let after = book.after_event(final_id, prev_id);
            let waits = book.status == BookStatus::WaitingForSnapshot;
            let fresh_event = !waits && book.last_update_id < final_id;
            &&& after.bids == book.bids && after.asks == book.asks
            &&& after.last_snapshot_request_time == book.last_snapshot_request_time
            &&& fresh_event && prev_id <= book.last_update_id ==> after.last_update_id == final_id
                && after.status == book.status
            &&& fresh_event && prev_id > book.last_update_id ==> after.last_update_id
                == book.last_update_id && after.status == BookStatus::WaitingForSnapshot
            &&& !fresh_event ==> after.last_update_id == book.last_update_id && after.status
                == book.status
        }),
{
}

/// The latency of an event makes a book stale or synced, unless it waits, and nothing else.
pub proof fn law_latency_is_judged(book: BookState, latency: int, threshold: int)
    ensures
        ({
            let after = book.after_latency(latency, threshold);
            &&& after.bids == book.bids && after.asks == book.asks
            &&& after.last_update_id == book.last_update_id
            &&& after.last_snapshot_request_time == book.last_snapshot_request_time
            &&& after.status == BookStatus::WaitingForSnapshot <==> book.status
                == BookStatus::WaitingForSnapshot
            &&& after.status == BookStatus::Stale <==> book.status
                != BookStatus::WaitingForSnapshot && latency > threshold
        }),
{
}

/// An event that is accepted is applied whole: the book holds every level of it, has reached its
/// end, and is stale exactly where the event came late.
pub proof fn law_accepted_event_is_applied_whole(
    book: BookState,
    latency: int,
    threshold: int,
    final_id: i64,
    prev_id: i64,
    bids: Seq<(&str, Amount)>,
    asks: Seq<(&str, Amount)>,
)
    requires
        book.status != BookStatus::WaitingForSnapshot,
        prev_id <= book.last_update_id < final_id,
        crate::book::prices_fit(bids),
        crate::book::prices_fit(asks),
    ensures
        ({
            let after = book.processed(
                latency,
                threshold,
                final_id,
                prev_id,
                crate::book::levels_read(bids),
                crate::book::levels_read(asks),
            );
            &&& shows_texts(book.bids, bids, after.bids)
            &&& shows_texts(book.asks, asks, after.asks)
            &&& after.last_update_id == final_id
            &&& after.status == if latency > threshold {
                BookStatus::Stale
            } else {
                BookStatus::Synced
            }
            &&& after.last_snapshot_request_time == book.last_snapshot_request_time
        }),
{
    law_level_texts_are_all_set(book, bids, asks);
}

/// An event that ends before the book does is dropped: the book is judged by its latency and is
/// otherwise as it was.
pub proof fn law_old_event_is_dropped(
    book: BookState,
    latency: int,
    threshold: int,
    final_id: i64,
    prev_id: i64,
    bids: Seq<(i64, Amount)>,
    asks: Seq<(i64, Amount)>,
)
    requires
        final_id <= book.last_update_id,
    ensures
        ({
            let after = book.processed(latency, threshold, final_id, prev_id, bids, asks);
            &&& after.bids == book.bids && after.asks == book.asks
            &&& after.last_update_id == book.last_update_id
            &&& after.last_snapshot_request_time == book.last_snapshot_request_time
            &&& after.status == if book.status == BookStatus::WaitingForSnapshot {
                BookStatus::WaitingForSnapshot
            } else if latency > threshold {
                BookStatus::Stale
            } else {
                BookStatus::Synced
            }
        }),
{
}

/// A gap is repaired: a book that waits asks for a snapshot as soon as the cooldown has passed
/// since it last did, whatever it holds and however it came to wait. One that does not wait asks
/// for none.
pub proof fn law_waiting_book_asks_for_a_snapshot(book: BookState, now: i64)
    ensures
        book.status == BookStatus::WaitingForSnapshot ==> (book.snapshot_due(now) <==> now
            - book.last_snapshot_request_time > 5000),
        book.status != BookStatus::WaitingForSnapshot ==> !book.snapshot_due(now),
{
}

/// In particular, a book that an event showed to have a gap asks for a snapshot, and asks again
/// after each cooldown for as long as none is loaded, whatever other events come.
pub proof fn law_gap_is_repaired(
    book: BookState,
    threshold: int,
    event: Event,
    later: Seq<Event>,
    now: i64,
)
    requires
        book.last_update_id < event.prev_id,
        book.last_update_id < event.final_id,
        now - book.last_snapshot_request_time > 5000,
    ensures
        crate::laws::after_all(
            crate::laws::after_one(book, threshold, event),
            threshold,
            later,
        ).snapshot_due(now),
{
    let gap = crate::laws::after_one(book, threshold, event);
    assert(gap.status == BookStatus::WaitingForSnapshot);
    crate::laws::law_waiting_book_processes_nothing(gap, threshold, later, event);
}

/// The highest price of a side is one of its prices, and the side has none above it; the lowest
/// likewise. Every side with a level has both.
pub proof fn law_best_price_has_none_beyond(side: Side, price: i64, other: i64)
    ensures
        crate::book::is_highest(side, price) ==> side.contains_key(price),
        crate::book::is_highest(side, price) && side.contains_key(other) ==> other <= price,
        side.contains_key(price) && !crate::book::is_highest(side, price) ==> exists|p: i64|
            p > price && #[trigger] side.contains_key(p),
        crate::book::is_lowest(side, price) ==> side.contains_key(price),
        crate::book::is_lowest(side, price) && side.contains_key(other) ==> other >= price,
        side.contains_key(price) && !crate::book::is_lowest(side, price) ==> exists|p: i64|
            p < price && #[trigger] side.contains_key(p),
{
}

/// The best levels to a depth are so many as the depth asks for, or all where the side has fewer.
/// Each is a level of the side, each is better than the next, and one that is left out is worse
/// than all of them.
pub proof fn law_top_levels_leave_none_better_out(
    side: Side,
    depth: nat,
    levels: Seq<(i64, Amount)>,
    i: int,
    j: int,
    left_out: i64,
)
    requires
        0 <= i < j < levels.len(),
        side.contains_key(left_out),
        forall|k: int| 0 <= k < levels.len() ==> (#[trigger] levels[k]).0 != left_out,
    ensures
        crate::book::are_top_bids(side, depth, levels) ==> {
            &&& side.contains_key(levels[i].0) && side[levels[i].0] == levels[i].1
            &&& side.contains_key(levels[j].0) && side[levels[j].0] == levels[j].1
            &&& levels[i].0 > levels[j].0 > left_out
        },
        crate::book::are_top_asks(side, depth, levels) ==> {
            &&& side.contains_key(levels[i].0) && side[levels[i].0] == levels[i].1
            &&& side.contains_key(levels[j].0) && side[levels[j].0] == levels[j].1
            &&& levels[i].0 < levels[j].0 < left_out
        },
{
    if crate::book::are_top_bids(side, depth, levels) && left_out > levels[j].0 {
        let k = choose|k: int| 0 <= k < j && (#[trigger] levels[k]).0 == left_out;
        assert(levels[k].0 != left_out);
    }
    if crate::book::are_top_asks(side, depth, levels) && left_out < levels[j].0 {
        let k = choose|k: int| 0 <= k < j && (#[trigger] levels[k]).0 == left_out;
        assert(levels[k].0 != left_out);
    }
    assert(levels[j].0 != left_out);
}

/// How many the best levels are: the depth, or all levels of the side where it has fewer. A single
/// one is the best of the side.
pub proof fn law_top_levels_reach_the_depth(
    side: Side,
    depth: nat,
    levels: Seq<(i64, Amount)>,
    other: i64,
)
    ensures
        crate::book::are_top_bids(side, depth, levels) || crate::book::are_top_asks(
            side,
            depth,
            levels,
        ) ==> {
            &&& levels.len() <= depth
            &&& levels.len() <= side.dom().len()
            &&& levels.len() == depth || levels.len() == side.dom().len()
        },
        crate::book::are_top_bids(side, depth, levels) && levels.len() > 0 ==> {
            &&& side.contains_key(levels[0].0) && side[levels[0].0] == levels[0].1
            &&& side.contains_key(other) ==> other <= levels[0].0
        },
        crate::book::are_top_asks(side, depth, levels) && levels.len() > 0 ==> {
            &&& side.contains_key(levels[0].0) && side[levels[0].0] == levels[0].1
            &&& side.contains_key(other) ==> other >= levels[0].0
        },
{
}

/// A listing of a side holds every level once, with its quantity, and nothing else, lowest price
/// first.
pub proof fn law_listing_holds_every_level(
    side: Side,
    levels: Seq<(i64, Amount)>,
    price: i64,
    i: int,
    j: int,
)
    requires
        crate::book::is_listing(side, levels),
    ensures
        levels.len() == side.dom().len(),
        side.contains_key(price) <==> exists|k: int|
            0 <= k < levels.len() && (#[trigger] levels[k]).0 == price,
        0 <= i < levels.len() ==> side.contains_key(levels[i].0) && side[levels[i].0]
            == levels[i].1,
        0 <= i < j < levels.len() ==> levels[i].0 < levels[j].0,
{
    let prices = levels.map_values(|level: (i64, Amount)| level.0);
    assert forall|a: int, b: int|
        0 <= a < prices.len() && 0 <= b < prices.len() && a != b implies prices[a] != prices[b] by {
        if a < b {
            assert(levels[a].0 < levels[b].0);
        } else {
            assert(levels[b].0 < levels[a].0);
        }
    }
    assert(prices.no_duplicates());
    prices.unique_seq_to_set();
    assert forall|p: i64| prices.to_set().contains(p) <==> side.dom().contains(p) by {
        if prices.to_set().contains(p) {
            let k = choose|k: int| 0 <= k < prices.len() && prices[k] == p;
            assert(levels[k].0 == p);
        }
        if side.contains_key(p) {
            let k = choose|k: int| 0 <= k < levels.len() && (#[trigger] levels[k]).0 == p;
            assert(prices[k] == p);
        }
    }
    assert(prices.to_set() =~= side.dom());
}

/// What is said of a book is said of what it holds.
pub proof fn law_book_is_what_it_holds(book: OrderBook, price: i64)
    ensures
        book@.bids.contains_key(price) <==> book.bids@.contains_key(price),
        book.bids@.contains_key(price) ==> book@.bids[price] == book.bids@[price],
        book@.asks.contains_key(price) <==> book.asks@.contains_key(price),
        book.asks@.contains_key(price) ==> book@.asks[price] == book.asks@[price],
        book@.last_update_id == book.last_update_id,
        book@.status == book.status,
        book@.last_snapshot_request_time == book.last_snapshot_request_time,
{
}

} // verus!
