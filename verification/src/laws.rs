//! What holds of the library as a whole and over several operations.
use vstd::prelude::*;

use crate::amount::Amount;
use crate::book::BookState;
use crate::book::BookStatus;
use crate::book::Side;

pub mod book;
pub mod clock;
pub mod market;
pub mod network;
pub mod registry;
pub mod storage;

verus! {

// ---- setting levels ----

/// A level that was set is read back: with its quantity, or not at all where that was zero. Every
/// other level of the side is as it was.
pub proof fn law_level_is_read_back(side: Side, price: i64, quantity: Amount, other: i64)
    ensures
        crate::book::level_set(side, price, quantity).contains_key(price)
            <==> !quantity.zero_quantity(),
        !quantity.zero_quantity() ==> crate::book::level_set(side, price, quantity)[price]
            == quantity,
        other != price ==> {
            let after = crate::book::level_set(side, price, quantity);
            &&& after.contains_key(other) == side.contains_key(other)
            &&& side.contains_key(other) ==> after[other] == side[other]
        },
{
}

/// Setting a level of one side leaves the other side, the ids and the status alone.
pub proof fn law_sides_are_independent(book: BookState, price: i64, quantity: Amount)
    ensures
        book.with_level(price, quantity, true).asks == book.asks,
        book.with_level(price, quantity, false).bids == book.bids,
        forall|is_bid: bool|
            {
                let after = #[trigger] book.with_level(price, quantity, is_bid);
                &&& after.last_update_id == book.last_update_id
                &&& after.status == book.status
                &&& after.last_snapshot_request_time == book.last_snapshot_request_time
            },
{
}

/// Of two settings of one level only the later one counts.
pub proof fn law_later_setting_counts(side: Side, price: i64, first: Amount, second: Amount)
    ensures
        crate::book::level_set(crate::book::level_set(side, price, first), price, second)
            == crate::book::level_set(side, price, second),
{
    assert(crate::book::level_set(crate::book::level_set(side, price, first), price, second)
        =~= crate::book::level_set(side, price, second));
}

/// Settings of different levels can be made in either order.
pub proof fn law_different_levels_commute(side: Side, p: i64, a: Amount, q: i64, b: Amount)
    requires
        p != q,
    ensures
        crate::book::level_set(crate::book::level_set(side, p, a), q, b) == crate::book::level_set(
            crate::book::level_set(side, q, b),
            p,
            a,
        ),
{
    assert(crate::book::level_set(crate::book::level_set(side, p, a), q, b)
        =~= crate::book::level_set(crate::book::level_set(side, q, b), p, a));
}

/// After a list of settings each level is as its last setting left it; a level that the list does
/// not name is as it was.
pub proof fn law_last_setting_counts(side: Side, updates: Seq<(i64, Amount)>, i: int, price: i64)
    ensures
        ({
            let after = crate::book::levels_set(side, updates);
            &&& 0 <= i < updates.len() && updates[i].0 == price && (forall|j: int|
                i < j < updates.len() ==> (#[trigger] updates[j]).0 != price) ==> {
                &&& after.contains_key(price) <==> !updates[i].1.zero_quantity()
                &&& !updates[i].1.zero_quantity() ==> after[price] == updates[i].1
            }
            &&& (forall|j: int| 0 <= j < updates.len() ==> (#[trigger] updates[j]).0 != price)
                ==> {
                &&& after.contains_key(price) == side.contains_key(price)
                &&& side.contains_key(price) ==> after[price] == side[price]
            }
        }),
    decreases updates.len(),
{
    if updates.len() > 0 {
        let front = updates.drop_last();
        law_last_setting_counts(side, front, i, price);
        assert forall|j: int| 0 <= j < front.len() implies front[j] == updates[j] by {}
        let last = updates.len() - 1;
        assert(updates.last() == updates[last]);
    }
}

/// It does not matter into how many lists the settings are cut.
pub proof fn law_settings_can_be_split(
    side: Side,
    first: Seq<(i64, Amount)>,
    second: Seq<(i64, Amount)>,
)
    ensures
        crate::book::levels_set(side, first + second) == crate::book::levels_set(
            crate::book::levels_set(side, first),
            second,
        ),
    decreases second.len(),
{
    if second.len() == 0 {
        assert(first + second =~= first);
    } else {
        law_settings_can_be_split(side, first, second.drop_last());
        assert((first + second).drop_last() =~= first + second.drop_last());
        assert((first + second).last() == second.last());
    }
}

/// Applying a list of settings a second time changes nothing.
pub proof fn law_settings_can_be_repeated(side: Side, updates: Seq<(i64, Amount)>)
    ensures
        crate::book::levels_set(crate::book::levels_set(side, updates), updates)
            == crate::book::levels_set(side, updates),
{
    let once = crate::book::levels_set(side, updates);
    let twice = crate::book::levels_set(once, updates);
    assert forall|p: i64| #![trigger twice.contains_key(p)]
        #![trigger once.contains_key(p)]
        twice.contains_key(p) == once.contains_key(p) && (once.contains_key(p) ==> twice[p]
            == once[p]) by {
        if exists|i: int| 0 <= i < updates.len() && (#[trigger] updates[i]).0 == p {
            let i = lemma_last_of(updates, p);
            law_last_setting_counts(side, updates, i, p);
            law_last_setting_counts(once, updates, i, p);
        } else {
            law_last_setting_counts(once, updates, 0, p);
        }
    }
    assert(twice.dom() =~= once.dom());
    assert(twice =~= once);
}

proof fn lemma_last_of(updates: Seq<(i64, Amount)>, price: i64) -> (r: int)
    requires
        exists|i: int| 0 <= i < updates.len() && (#[trigger] updates[i]).0 == price,
    ensures
        0 <= r < updates.len(),
        updates[r].0 == price,
        forall|j: int| r < j < updates.len() ==> (#[trigger] updates[j]).0 != price,
    decreases updates.len(),
{
    let last = updates.len() - 1;
    if updates[last].0 == price {
        last
    } else {
        let front = updates.drop_last();
        let i = choose|i: int| 0 <= i < updates.len() && (#[trigger] updates[i]).0 == price;
        assert(front[i].0 == price);
        let r = lemma_last_of(front, price);
        assert forall|j: int| r < j < updates.len() implies (#[trigger] updates[j]).0 != price by {
            if j < last {
                assert(front[j] == updates[j]);
            }
        }
        r
    }
}

proof fn lemma_no_empty_level(side: Side, updates: Seq<(i64, Amount)>)
    requires
        crate::book::no_empty_level(side),
    ensures
        crate::book::no_empty_level(crate::book::levels_set(side, updates)),
    decreases updates.len(),
{
    if updates.len() > 0 {
        lemma_no_empty_level(side, updates.drop_last());
    }
}

/// No book ever holds a level without quantity: not a fresh one, nor one that took a snapshot,
/// levels or an event, was judged by its latency, was given another status, or had a snapshot
/// asked for.
pub proof fn law_no_level_without_quantity(
    book: BookState,
    price: i64,
    quantity: Amount,
    is_bid: bool,
    bids: Seq<(i64, Amount)>,
    asks: Seq<(i64, Amount)>,
    id: i64,
    prev_id: i64,
    latency: int,
    threshold: int,
    status: BookStatus,
    requested: i64,
)
    ensures
        BookState::fresh().well_formed(),
        book.with_snapshot(id, bids, asks).well_formed(),
        book.well_formed() ==> {
            &&& book.with_level(price, quantity, is_bid).well_formed()
            &&& book.with_levels(bids, asks).well_formed()
            &&& book.after_event(id, prev_id).well_formed()
            &&& book.after_latency(latency, threshold).well_formed()
            &&& book.processed(latency, threshold, id, prev_id, bids, asks).well_formed()
            &&& (BookState { status, ..book }).well_formed()
            &&& (BookState { last_snapshot_request_time: requested, ..book }).well_formed()
        },
{
    let empty: Side = Map::empty();
    lemma_no_empty_level(empty, bids);
    lemma_no_empty_level(empty, asks);
    if book.well_formed() {
        lemma_no_empty_level(book.bids, bids);
        lemma_no_empty_level(book.asks, asks);
    }
}

// ---- best levels ----

/// A side has one best price only.
pub proof fn law_best_price_is_unique(side: Side, a: i64, b: i64)
    ensures
        crate::book::is_highest(side, a) && crate::book::is_highest(side, b) ==> a == b,
        crate::book::is_lowest(side, a) && crate::book::is_lowest(side, b) ==> a == b,
{
}

/// The best levels to a depth are fixed by the side, and the first of them is the best one.
pub proof fn law_top_bids_are_unique(
    side: Side,
    depth: nat,
    a: Seq<(i64, Amount)>,
    b: Seq<(i64, Amount)>,
)
    requires
        crate::book::are_top_bids(side, depth, a),
        crate::book::are_top_bids(side, depth, b),
    ensures
        a == b,
        a.len() > 0 ==> crate::book::is_highest(side, a[0].0),
{
    assert forall|n: int| 0 <= n < a.len() implies a[n] == b[n] by {
        lemma_same_bid(side, depth, a, b, n);
    }
    assert(a =~= b);
    if a.len() > 0 {
        assert forall|p: i64| #[trigger] side.contains_key(p) implies p <= a[0].0 by {
            if p > a[0].0 {
                let j = choose|j: int| 0 <= j < 0 && (#[trigger] a[j]).0 == p;
                assert(false);
            }
        }
    }
}

proof fn lemma_same_bid(
    side: Side,
    depth: nat,
    a: Seq<(i64, Amount)>,
    b: Seq<(i64, Amount)>,
    n: int,
)
    requires
        crate::book::are_top_bids(side, depth, a),
        crate::book::are_top_bids(side, depth, b),
        0 <= n < a.len(),
    ensures
        a[n] == b[n],
    decreases n,
{
    assert forall|k: int| 0 <= k < n implies a[k] == b[k] by {
        lemma_same_bid(side, depth, a, b, k);
    }
    if a[n].0 > b[n].0 {
        assert(side.contains_key(a[n].0));
        let j = choose|j: int| 0 <= j < n && (#[trigger] b[j]).0 == a[n].0;
        assert(a[j] == b[j]);
        assert(a[j].0 > a[n].0);
    }
    if b[n].0 > a[n].0 {
        assert(side.contains_key(b[n].0));
        let j = choose|j: int| 0 <= j < n && (#[trigger] a[j]).0 == b[n].0;
        assert(a[j] == b[j]);
        assert(b[j].0 > b[n].0);
    }
}

/// The best levels to a depth are fixed by the side, and the first of them is the best one.
pub proof fn law_top_asks_are_unique(
    side: Side,
    depth: nat,
    a: Seq<(i64, Amount)>,
    b: Seq<(i64, Amount)>,
)
    requires
        crate::book::are_top_asks(side, depth, a),
        crate::book::are_top_asks(side, depth, b),
    ensures
        a == b,
        a.len() > 0 ==> crate::book::is_lowest(side, a[0].0),
{
    assert forall|n: int| 0 <= n < a.len() implies a[n] == b[n] by {
        lemma_same_ask(side, depth, a, b, n);
    }
    assert(a =~= b);
    if a.len() > 0 {
        assert forall|p: i64| #[trigger] side.contains_key(p) implies a[0].0 <= p by {
            if p < a[0].0 {
                let j = choose|j: int| 0 <= j < 0 && (#[trigger] a[j]).0 == p;
                assert(false);
            }
        }
    }
}

proof fn lemma_same_ask(
    side: Side,
    depth: nat,
    a: Seq<(i64, Amount)>,
    b: Seq<(i64, Amount)>,
    n: int,
)
    requires
        crate::book::are_top_asks(side, depth, a),
        crate::book::are_top_asks(side, depth, b),
        0 <= n < a.len(),
    ensures
        a[n] == b[n],
    decreases n,
{
    assert forall|k: int| 0 <= k < n implies a[k] == b[k] by {
        lemma_same_ask(side, depth, a, b, k);
    }
    if a[n].0 < b[n].0 {
        assert(side.contains_key(a[n].0));
        let j = choose|j: int| 0 <= j < n && (#[trigger] b[j]).0 == a[n].0;
        assert(a[j] == b[j]);
        assert(a[j].0 < a[n].0);
    }
    if b[n].0 < a[n].0 {
        assert(side.contains_key(b[n].0));
        let j = choose|j: int| 0 <= j < n && (#[trigger] a[j]).0 == b[n].0;
        assert(a[j] == b[j]);
        assert(b[j].0 < b[n].0);
    }
}

// ---- staying in step with the exchange ----

/// A snapshot replaces all that a book knew of the market: two books that load the same one agree
/// in everything but when they last asked for it.
pub proof fn law_snapshot_forgets_the_past(
    a: BookState,
    b: BookState,
    id: i64,
    bids: Seq<(i64, Amount)>,
    asks: Seq<(i64, Amount)>,
)
    ensures
        a.with_snapshot(id, bids, asks) == (BookState {
            last_snapshot_request_time: a.last_snapshot_request_time,
            ..b.with_snapshot(id, bids, asks)
        }),
        a.with_snapshot(id, bids, asks).bids == BookState::fresh().with_levels(bids, asks).bids,
        a.with_snapshot(id, bids, asks).asks == BookState::fresh().with_levels(bids, asks).asks,
{
}

/// One depth update, with its price texts read.
pub struct Event {
    pub latency: int,
    pub final_id: i64,
    pub prev_id: i64,
    pub bids: Seq<(i64, Amount)>,
    pub asks: Seq<(i64, Amount)>,
}

/// Whether the book accepts the event.
pub open spec fn accepts(book: BookState, threshold: int, event: Event) -> bool {
    book.accepts(event.latency, threshold, event.final_id, event.prev_id)
}

/// The book after one event.
pub open spec fn after_one(book: BookState, threshold: int, event: Event) -> BookState {
    book.processed(
        event.latency,
        threshold,
        event.final_id,
        event.prev_id,
        event.bids,
        event.asks,
    )
}

/// The book after a run of events.
pub open spec fn after_all(book: BookState, threshold: int, events: Seq<Event>) -> BookState
    decreases events.len(),
{
    if events.len() == 0 {
        book
    } else {
        after_one(after_all(book, threshold, events.drop_last()), threshold, events.last())
    }
}

/// Whether the event shows that events before it were lost.
pub open spec fn shows_gap(book: BookState, event: Event) -> bool {
    book.last_update_id < event.prev_id && book.last_update_id < event.final_id
}

/// The bids of all events, one event after the other.
pub open spec fn all_bids(events: Seq<Event>) -> Seq<(i64, Amount)>
    decreases events.len(),
{
    if events.len() == 0 {
        Seq::empty()
    } else {
        all_bids(events.drop_last()) + events.last().bids
    }
}

/// The asks of all events, one event after the other.
pub open spec fn all_asks(events: Seq<Event>) -> Seq<(i64, Amount)>
    decreases events.len(),
{
    if events.len() == 0 {
        Seq::empty()
    } else {
        all_asks(events.drop_last()) + events.last().asks
    }
}

/// Whether the events follow a snapshot without a gap: the first reaches over its id, and each
/// other one begins where the one before it ended.
pub open spec fn follow(id: i64, events: Seq<Event>) -> bool {
    &&& events.len() > 0 ==> events[0].prev_id <= id < events[0].final_id
    &&& forall|i: int|
        0 < i < events.len() ==> (#[trigger] events[i]).prev_id == events[i - 1].final_id
            < events[i].final_id
}

/// A book is rebuilt from a snapshot and the events that follow it: it holds exactly what all
/// levels leave, the snapshot's first, set one after the other, and has reached the last event.
pub proof fn law_book_is_rebuilt(
    book: BookState,
    id: i64,
    bids: Seq<(i64, Amount)>,
    asks: Seq<(i64, Amount)>,
    threshold: int,
    events: Seq<Event>,
)
    requires
        follow(id, events),
    ensures
        ({
            let rebuilt = after_all(book.with_snapshot(id, bids, asks), threshold, events);
            &&& rebuilt.bids == crate::book::levels_set(Map::empty(), bids + all_bids(events))
            &&& rebuilt.asks == crate::book::levels_set(Map::empty(), asks + all_asks(events))
            &&& rebuilt.last_update_id == if events.len() == 0 {
                id
            } else {
                events.last().final_id
            }
            &&& rebuilt.status != BookStatus::WaitingForSnapshot
        }),
    decreases events.len(),
{
    let start = book.with_snapshot(id, bids, asks);
    let none: Side = Map::empty();
    if events.len() == 0 {
        assert(bids + all_bids(events) =~= bids);
        assert(asks + all_asks(events) =~= asks);
    } else {
        let front = events.drop_last();
        let last = events.last();
        lemma_front_follows(id, events);
        law_book_is_rebuilt(book, id, bids, asks, threshold, front);
        let before = after_all(start, threshold, front);
        assert(accepts(before, threshold, last));
        law_settings_can_be_split(none, bids + all_bids(front), last.bids);
        law_settings_can_be_split(none, asks + all_asks(front), last.asks);
        assert(bids + all_bids(events) =~= (bids + all_bids(front)) + last.bids);
        assert(asks + all_asks(events) =~= (asks + all_asks(front)) + last.asks);
    }
}

proof fn lemma_front_follows(id: i64, events: Seq<Event>)
    requires
        follow(id, events),
        events.len() > 0,
    ensures
        follow(id, events.drop_last()),
        events.len() == 1 ==> events.last().prev_id <= id < events.last().final_id,
        events.len() > 1 ==> events.last().prev_id == events.drop_last().last().final_id
            < events.last().final_id,
{
    let front = events.drop_last();
    assert forall|i: int| 0 < i < front.len() implies (#[trigger] front[i]).prev_id == front[i
        - 1].final_id < front[i].final_id by {
        assert(front[i] == events[i]);
    }
    if events.len() > 1 {
        assert(events[events.len() - 1].prev_id == events[events.len() - 2].final_id);
    }
}

/// Of the events that follow a snapshot without a gap, every one is accepted.
pub proof fn law_following_events_are_accepted(
    book: BookState,
    id: i64,
    bids: Seq<(i64, Amount)>,
    asks: Seq<(i64, Amount)>,
    threshold: int,
    events: Seq<Event>,
    i: int,
)
    requires
        follow(id, events),
        0 <= i < events.len(),
    ensures
        accepts(
            after_all(book.with_snapshot(id, bids, asks), threshold, events.take(i)),
            threshold,
            events[i],
        ),
    decreases events.len(),
{
    lemma_front_follows(id, events);
    let front = events.drop_last();
    if i < events.len() - 1 {
        law_following_events_are_accepted(book, id, bids, asks, threshold, front, i);
        assert(front.take(i) =~= events.take(i));
    } else {
        law_book_is_rebuilt(book, id, bids, asks, threshold, front);
        assert(events.take(i) =~= front);
    }
}

/// A lost event is noticed: where the event before the one at hand ends past the book, the book
/// waits for a snapshot and is otherwise as it was.
pub proof fn law_gap_is_noticed(book: BookState, threshold: int, event: Event)
    requires
        book.status != BookStatus::WaitingForSnapshot,
        shows_gap(book, event),
    ensures
        !accepts(book, threshold, event),
        after_one(book, threshold, event) == (BookState {
            status: BookStatus::WaitingForSnapshot,
            ..book
        }),
{
}

/// A book that waits for a snapshot processes nothing: no run of events changes it, and none of
/// them is accepted.
pub proof fn law_waiting_book_processes_nothing(
    book: BookState,
    threshold: int,
    events: Seq<Event>,
    event: Event,
)
    requires
        book.status == BookStatus::WaitingForSnapshot,
    ensures
        after_all(book, threshold, events) == book,
        !accepts(after_all(book, threshold, events), threshold, event),
    decreases events.len(),
{
    if events.len() > 0 {
        law_waiting_book_processes_nothing(book, threshold, events.drop_last(), event);
    }
}

/// The levels of an event that is not accepted are not applied.
pub proof fn law_refused_event_sets_no_level(book: BookState, threshold: int, event: Event)
    requires
        !accepts(book, threshold, event),
    ensures
        after_one(book, threshold, event).bids == book.bids,
        after_one(book, threshold, event).asks == book.asks,
        after_one(book, threshold, event).last_update_id == book.last_update_id,
{
}

/// The update id of a book never falls, over any run of events.
pub proof fn law_update_id_never_falls(book: BookState, threshold: int, events: Seq<Event>)
    ensures
        book.last_update_id <= after_all(book, threshold, events).last_update_id,
    decreases events.len(),
{
    if events.len() > 0 {
        law_update_id_never_falls(book, threshold, events.drop_last());
    }
}

/// An event is accepted once at most: sent again after any run of events, it is not.
pub proof fn law_event_is_accepted_once(
    book: BookState,
    threshold: int,
    event: Event,
    events: Seq<Event>,
    again: Event,
)
    requires
        accepts(book, threshold, event),
        again.final_id == event.final_id,
    ensures
        ({
            let later = after_all(after_one(book, threshold, event), threshold, events);
            !accepts(later, threshold, again)
        }),
{
    law_update_id_never_falls(after_one(book, threshold, event), threshold, events);
}

/// A book is judged by the latency of the last event: an event past the threshold never leaves it
/// synced. Unless it waits for a snapshot, or the event shows a gap, the book is then stale, and
/// synced where the event came in time.
pub proof fn law_late_book_is_stale(book: BookState, threshold: int, event: Event)
    ensures
        event.latency > threshold ==> after_one(book, threshold, event).status
            != BookStatus::Synced,
        book.status != BookStatus::WaitingForSnapshot && !shows_gap(book, event) ==> after_one(
            book,
            threshold,
            event,
        ).status == if event.latency > threshold {
            BookStatus::Stale
        } else {
            BookStatus::Synced
        },
{
}

/// Between two requests for a snapshot of one book more than the cooldown passes.
pub proof fn law_requests_keep_the_cooldown(book: BookState, first: i64, second: i64)
    requires
        book.snapshot_due(first),
        (BookState { last_snapshot_request_time: first, ..book }).snapshot_due(second),
    ensures
        second - first > crate::book::SNAPSHOT_COOLDOWN_MS,
{
}

// ---- clock ----

/// The least of a latency so far and some that follow.
pub open spec fn least_of_all(so_far: Option<i128>, latencies: Seq<i128>) -> Option<i128>
    decreases latencies.len(),
{
    if latencies.len() == 0 {
        so_far
    } else {
        Some(
            crate::clock::least(
                least_of_all(so_far, latencies.drop_last()),
                latencies.last() as int,
            ) as i128,
        )
    }
}

/// What a round keeps is the least raw latency of its messages: one of them has it, and none has
/// less.
pub proof fn law_round_keeps_the_least_latency(latencies: Seq<i128>)
    requires
        latencies.len() > 0,
    ensures
        least_of_all(None, latencies) is Some,
        latencies.contains(least_of_all(None, latencies)->0),
        forall|i: int|
            0 <= i < latencies.len() ==> least_of_all(None, latencies)->0
                <= #[trigger] latencies[i],
    decreases latencies.len(),
{
    let front = latencies.drop_last();
    let end = latencies.len() - 1;
    if front.len() > 0 {
        law_round_keeps_the_least_latency(front);
        let k = choose|k: int| 0 <= k < front.len() && front[k] == least_of_all(None, front)->0;
        assert(latencies[k] == front[k]);
    }
    assert(latencies[end] == latencies.last());
    assert forall|i: int| 0 <= i < latencies.len() implies least_of_all(None, latencies)->0
        <= #[trigger] latencies[i] by {
        if i < end {
            assert(front[i] == latencies[i]);
        }
    }
}

/// At the end of a round the fastest message of the round has exactly the latency of the network
/// floor, and none has less.
pub proof fn law_fastest_message_meets_the_floor(
    clock: crate::clock::ClockSync,
    raw_latency: int,
    other: int,
)
    requires
        crate::clock::least(clock.min_raw_latency, raw_latency) <= other,
    ensures
        crate::clock::least(clock.min_raw_latency, raw_latency) + clock.new_offset(raw_latency)
            == clock.floor,
        other + clock.new_offset(raw_latency) >= clock.floor,
{
}

// ---- registry ----

/// What was registered is found again however the exchange and the symbol are written, as long
/// as case folding makes the same key of them. Its book was opened empty and is none of those
/// that were registered before, under this key or another, so that whoever holds one of them goes
/// on holding another book. Every other key keeps its book and its rules.
pub proof fn law_registered_book_is_found(
    before: crate::manager::ManagerState,
    after: crate::manager::ManagerState,
    exchange: Seq<char>,
    symbol: Seq<char>,
    filters: crate::init_market::MarketFilters,
    asked_exchange: Seq<char>,
    asked_symbol: Seq<char>,
)
    requires
        before.registers(crate::manager::key_of(exchange, symbol), filters, after),
    ensures
        ({
            let key = crate::manager::key_of(exchange, symbol);
            let asked = crate::manager::key_of(asked_exchange, asked_symbol);
            if crate::text::lowercase(asked_exchange) == crate::text::lowercase(exchange)
                && crate::text::uppercase(asked_symbol) == crate::text::uppercase(symbol) {
                &&& after.books.contains_key(asked)
                &&& after.books[asked] == after.books[key]
                &&& crate::manager::opening_book(*after.books[asked]) == BookState::fresh()
                &&& forall|other: (Seq<char>, Seq<char>)| #[trigger]
                    before.books.contains_key(other) ==> before.books[other] != after.books[asked]
                &&& after.filters.contains_key(asked)
                &&& after.filters[asked] == filters
            } else {
                &&& after.books.contains_key(asked) == before.books.contains_key(asked)
                &&& before.books.contains_key(asked) ==> after.books[asked] == before.books[asked]
                &&& after.filters.contains_key(asked) == before.filters.contains_key(asked)
                &&& before.filters.contains_key(asked) ==> after.filters[asked]
                    == before.filters[asked]
            }
        }),
{
}

/// No two keys ever share a book: a registry without books has none to share, and registering a
/// key, or all configured symbols, gives each a book of its own.
pub proof fn law_no_two_keys_share_a_book(
    before: crate::manager::ManagerState,
    key: (Seq<char>, Seq<char>),
    filters: crate::init_market::MarketFilters,
    exchange: Seq<char>,
    symbols: Seq<String>,
    markets: Seq<crate::init_market::MarketFilters>,
    after: crate::manager::ManagerState,
)
    ensures
        before.books == Map::<(Seq<char>, Seq<char>), crate::manager::SharedBook>::empty()
            ==> before.books_are_apart(),
        before.books_are_apart() && before.registers(key, filters, after)
            ==> after.books_are_apart(),
        before.books_are_apart() && before.registers_all(exchange, symbols, markets, after)
            ==> after.books_are_apart(),
{
    if before.books_are_apart() && before.registers(key, filters, after) {
        assert forall|a: (Seq<char>, Seq<char>), b: (Seq<char>, Seq<char>)|
            a != b && #[trigger] after.books.contains_key(a) && #[trigger] after.books.contains_key(
                b,
            ) implies after.books[a] != after.books[b] by {
            assert(a == key || before.books.contains_key(a));
            assert(b == key || before.books.contains_key(b));
        }
    }
    if before.books_are_apart() && before.registers_all(exchange, symbols, markets, after) {
        assert forall|a: (Seq<char>, Seq<char>), b: (Seq<char>, Seq<char>)|
            a != b && #[trigger] after.books.contains_key(a) && #[trigger] after.books.contains_key(
                b,
            ) implies after.books[a] != after.books[b] by {
            let of_one = |k: (Seq<char>, Seq<char>)|
                crate::manager::is_key_of_one(exchange, symbols, k);
            if !of_one(a) && !of_one(b) {
                assert(before.books.contains_key(a) && before.books.contains_key(b));
            }
        }
    }
}

/// Where the exchange lists every configured symbol, in upper case, each of them finds its market
/// and can be registered; where it does not list one, that one finds none.
pub proof fn law_listed_symbols_find_their_markets(
    symbols: Seq<String>,
    listed: Seq<crate::init_market::ListedSymbol>,
    markets: Seq<crate::init_market::MarketFilters>,
    i: int,
)
    requires
        crate::init_market::are_wanted_markets(
            crate::init_market::uppercased(symbols),
            listed,
            markets,
        ),
        0 <= i < symbols.len(),
    ensures
        crate::manager::is_listed(symbols[i], markets) <==> exists|j: int|
            0 <= j < listed.len() && crate::init_market::listed_name(#[trigger] listed[j])
                == crate::text::uppercase(symbols[i]@),
{
    let name = crate::text::uppercase(symbols[i]@);
    assert(crate::init_market::uppercased(symbols)[i] == name);
    if crate::manager::is_listed(symbols[i], markets) {
        let m = choose|m: int| 0 <= m < markets.len() && (#[trigger] markets[m]).symbol@ == name;
        assert(crate::init_market::stated_last(listed, markets[m]));
        let j = choose|j: int|
            crate::init_market::is_last_entry(listed, markets[m].symbol@, j)
                && crate::init_market::describes(markets[m], listed[j]);
        assert(crate::init_market::listed_name(listed[j]) == name);
    }
}

// ---- storage ----

/// A scheduler fires only where an interval begins, and not twice for one bucket.
pub proof fn law_scheduler_fires_once_per_bucket(
    scheduler: crate::storage::SchedulerState,
    minute: int,
    later: int,
)
    requires
        scheduler.fires_at(minute),
        later / crate::storage::interval_minutes(scheduler.interval) == minute
            / crate::storage::interval_minutes(scheduler.interval),
    ensures
        minute % crate::storage::interval_minutes(scheduler.interval) == 0,
        !scheduler.asked_at(minute).fires_at(later),
{
}

/// A scheduler that fired at the beginning of an interval fires at the beginning of the next one,
/// at midnight too.
pub proof fn law_scheduler_fires_every_interval(
    scheduler: crate::storage::SchedulerState,
    minute: int,
)
    requires
        0 <= minute < 1440,
        scheduler.fires_at(minute),
    ensures
        ({
            let next = (minute + crate::storage::interval_minutes(scheduler.interval)) % 1440;
            scheduler.asked_at(minute).fires_at(next)
        }),
{
    let interval = crate::storage::interval_minutes(scheduler.interval);
    let next = (minute + interval) % 1440;
    if minute + interval < 1440 {
        assert((minute + interval) % interval == 0 && (minute + interval) / interval == minute
            / interval + 1) by (nonlinear_arith)
            requires
                minute % interval == 0,
                interval > 0,
                minute >= 0,
        ;
        assert(next == minute + interval);
    } else {
        // The last interval of the day: the bucket before midnight is not the first one.
        assert(interval == 15 || interval == 30 || interval == 60 || interval == 120 || interval
            == 240 || interval == 720);
        if interval == 15 {
            assert(minute % 15 == 0);
            assert(minute / 15 == 95);
        } else if interval == 30 {
            assert(minute % 30 == 0);
            assert(minute / 30 == 47);
        } else if interval == 60 {
            assert(minute % 60 == 0);
            assert(minute / 60 == 23);
        } else if interval == 120 {
            assert(minute % 120 == 0);
            assert(minute / 120 == 11);
        } else if interval == 240 {
            assert(minute % 240 == 0);
            assert(minute / 240 == 5);
        } else {
            assert(minute % 720 == 0);
            assert(minute / 720 == 1);
        }
        assert(next == 0);
        assert(next / interval == 0 && next % interval == 0) by (nonlinear_arith)
            requires
                next == 0,
                interval > 0,
        ;
        assert(minute / interval >= 1);
    }
}

/// What happens to a buffer, and when.
pub enum BufferInput {
    /// A tick comes in.
    Tick(crate::storage::TickData, i64),
    /// The buffer is looked at.
    Poll(i64),
}

/// The ticks among the inputs, in the order they came.
pub open spec fn ticks_of(inputs: Seq<BufferInput>) -> Seq<crate::storage::TickData>
    decreases inputs.len(),
{
    if inputs.len() == 0 {
        Seq::empty()
    } else {
        let before = ticks_of(inputs.drop_last());
        match inputs.last() {
            BufferInput::Tick(tick, _) => before.push(tick),
            BufferInput::Poll(_) => before,
        }
    }
}

/// What a run of inputs hands out on the way, all batches one after the other, and what it leaves
/// in the buffer.
pub open spec fn buffer_run(
    buffer: crate::storage::BufferState,
    inputs: Seq<BufferInput>,
) -> (Seq<crate::storage::TickData>, crate::storage::BufferState)
    decreases inputs.len(),
{
    if inputs.len() == 0 {
        (Seq::empty(), buffer)
    } else {
        let (handed_out, before) = buffer_run(buffer, inputs.drop_last());
        match inputs.last() {
            BufferInput::Tick(tick, now) => if before.due(now) {
                (handed_out + before.ticks.push(tick), before.pushed(tick, now))
            } else {
                (handed_out, before.pushed(tick, now))
            },
            BufferInput::Poll(now) => if before.overdue(now) {
                (handed_out + before.ticks, before.polled(now))
            } else {
                (handed_out, before.polled(now))
            },
        }
    }
}

/// The buffer loses no tick, doubles none and keeps their order: what was handed out, followed by
/// what still waits and is handed out at the close, is what waited at first, followed by all that
/// came. And it never holds as many as are written at once.
pub proof fn law_buffer_loses_no_tick(
    buffer: crate::storage::BufferState,
    inputs: Seq<BufferInput>,
)
    requires
        buffer.ticks.len() < crate::storage::FLUSH_TICKS,
    ensures
        ({
            let (handed_out, after) = buffer_run(buffer, inputs);
            &&& handed_out + after.ticks == buffer.ticks + ticks_of(inputs)
            &&& after.ticks.len() < crate::storage::FLUSH_TICKS
        }),
    decreases inputs.len(),
{
    let ticks = ticks_of(inputs);
    if inputs.len() == 0 {
        assert(buffer_run(buffer, inputs).0 + buffer.ticks =~= buffer.ticks + ticks);
    } else {
        let front = inputs.drop_last();
        law_buffer_loses_no_tick(buffer, front);
        let (handed_out, before) = buffer_run(buffer, front);
        let (handed_out_after, after) = buffer_run(buffer, inputs);
        match inputs.last() {
            BufferInput::Tick(tick, _) => {
                assert(handed_out_after + after.ticks =~= (handed_out + before.ticks).push(tick));
                assert(buffer.ticks + ticks =~= (buffer.ticks + ticks_of(front)).push(tick));
            },
            BufferInput::Poll(_) => {
                assert(handed_out_after + after.ticks =~= handed_out + before.ticks);
            },
        }
    }
}

proof fn lemma_first_tick(inputs: Seq<BufferInput>, tick: crate::storage::TickData, came: i64)
    requires
        inputs.len() > 0,
        inputs[0] == BufferInput::Tick(tick, came),
    ensures
        ticks_of(inputs).len() > 0,
        ticks_of(inputs)[0] == tick,
    decreases inputs.len(),
{
    if inputs.len() > 1 {
        lemma_first_tick(inputs.drop_last(), tick, came);
    } else {
        assert(ticks_of(inputs.drop_last()) =~= Seq::empty());
    }
}

/// The first batch that a run hands out holds all that waited at first and the first tick.
proof fn lemma_first_batch(
    buffer: crate::storage::BufferState,
    inputs: Seq<BufferInput>,
    tick: crate::storage::TickData,
    came: i64,
)
    requires
        buffer.ticks.len() < crate::storage::FLUSH_TICKS,
        inputs.len() > 0,
        inputs[0] == BufferInput::Tick(tick, came),
    ensures
        ({
            let (handed_out, after) = buffer_run(buffer, inputs);
            if handed_out.len() == 0 {
                after.last_flush_time == buffer.last_flush_time && after.ticks.len()
                    > buffer.ticks.len()
            } else {
                handed_out.len() > buffer.ticks.len()
            }
        }),
    decreases inputs.len(),
{
    let front = inputs.drop_last();
    if inputs.len() == 1 {
        assert(buffer_run(buffer, front).0 =~= Seq::empty());
    } else {
        lemma_first_batch(buffer, front, tick, came);
    }
}

/// A tick waits no longer than the interval: once the buffer is looked at so long after the tick
/// came, the tick has been handed out, in its place behind all that waited before it, whatever
/// else came meanwhile or did not.
pub proof fn law_no_tick_waits_past_the_interval(
    buffer: crate::storage::BufferState,
    inputs: Seq<BufferInput>,
    tick: crate::storage::TickData,
    came: i64,
    now: i64,
)
    requires
        buffer.ticks.len() < crate::storage::FLUSH_TICKS,
        buffer.last_flush_time <= came,
        now - came >= crate::storage::FLUSH_SECS,
        inputs.len() > 1,
        inputs[0] == BufferInput::Tick(tick, came),
        inputs.last() == BufferInput::Poll(now),
    ensures
        buffer_run(buffer, inputs).0.len() > buffer.ticks.len(),
        buffer_run(buffer, inputs).0[buffer.ticks.len() as int] == tick,
{
    lemma_first_batch(buffer, inputs.drop_last(), tick, came);
    law_buffer_loses_no_tick(buffer, inputs);
    lemma_first_tick(inputs, tick, came);
    let (handed_out, after) = buffer_run(buffer, inputs);
    let at = buffer.ticks.len() as int;
    assert((handed_out + after.ticks)[at] == (buffer.ticks + ticks_of(inputs))[at]);
}

/// No tick is lost between the buffer and the file, and none is written twice: the rows are those
/// of the ticks, each as often as its tick occurs.
pub proof fn law_every_tick_has_its_row(ticks: Seq<crate::storage::TickData>)
    ensures
        crate::storage::tick_rows(ticks).to_multiset() == ticks.map_values(
            |tick: crate::storage::TickData| crate::storage::tick_row(tick),
        ).to_multiset(),
        crate::storage::tick_rows(ticks).len() == ticks.len(),
    decreases ticks.len(),
{
    broadcast use vstd::seq_lib::group_to_multiset_ensures;

    let rows = |all: Seq<crate::storage::TickData>|
        all.map_values(|tick: crate::storage::TickData| crate::storage::tick_row(tick));
    if ticks.len() > 0 {
        let front = ticks.drop_last();
        let last = crate::storage::tick_row(ticks.last());
        law_every_tick_has_its_row(front);
        assert(rows(ticks) =~= rows(front).push(last));
        let bids = crate::storage::side_rows(front, true);
        let asks = crate::storage::side_rows(front, false);
        vstd::seq_lib::lemma_multiset_commutative(bids, asks);
        if ticks.last().is_bid {
            vstd::seq_lib::lemma_multiset_commutative(bids.push(last), asks);
            assert(bids.push(last).to_multiset().add(asks.to_multiset())
                =~= bids.to_multiset().add(asks.to_multiset()).insert(last));
        } else {
            vstd::seq_lib::lemma_multiset_commutative(bids, asks.push(last));
            assert(bids.to_multiset().add(asks.push(last).to_multiset())
                =~= bids.to_multiset().add(asks.to_multiset()).insert(last));
        }
    } else {
        assert(rows(ticks) =~= Seq::empty());
        assert(crate::storage::tick_rows(ticks) =~= Seq::empty());
    }
}

/// Where every level of a snapshot is a pair, none is left out.
pub proof fn law_pairs_are_all_kept(levels: Seq<Vec<String>>)
    requires
        forall|i: int| 0 <= i < levels.len() ==> (#[trigger] levels[i])@.len() == 2,
    ensures
        crate::levels::exact_pairs(levels) == levels.map_values(
            |level: Vec<String>| crate::levels::pair_of(level),
        ),
    decreases levels.len(),
{
    let pairs = levels.map_values(|level: Vec<String>| crate::levels::pair_of(level));
    if levels.len() > 0 {
        let front = levels.drop_last();
        law_pairs_are_all_kept(front);
        assert(levels.last()@.len() == 2) by {
            assert(levels[levels.len() - 1]@.len() == 2);
        }
        assert(pairs =~= front.map_values(
            |level: Vec<String>| crate::levels::pair_of(level),
        ).push(crate::levels::pair_of(levels.last())));
    } else {
        assert(pairs =~= Seq::empty());
    }
}

} // verus!
