//! What is written of books and ticks, where, and when.
use vstd::prelude::*;

use crate::amount::Amount;
use crate::storage::BufferState;
use crate::storage::Columns;
use crate::storage::OutputFile;
use crate::storage::Row;
use crate::storage::SchedulerState;
use crate::storage::TickBuffer;
use crate::storage::TickData;

verus! {

// ---- rows ----

/// Whether the columns of some file give this row at `i`.
pub open spec fn gives_row(
    columns: Columns,
    i: int,
    timestamp: i64,
    price: i64,
    quantity: Amount,
    side: Seq<char>,
) -> bool {
    &&& 0 <= i < columns.timestamps@.len() && columns.timestamps@[i] == timestamp
    &&& 0 <= i < columns.prices@.len() && columns.prices@[i] == price
    &&& 0 <= i < columns.quantities@.len() && columns.quantities@[i] == quantity
    &&& 0 <= i < columns.sides@.len() && columns.sides@[i]@ == side
}

/// Whether the columns of some file have so many rows.
pub open spec fn has_rows(columns: Columns, n: int) -> bool {
    &&& columns.timestamps@.len() == n
    &&& columns.prices@.len() == n
    &&& columns.quantities@.len() == n
    &&& columns.sides@.len() == n
}

/// Some levels have one row each, in their order, with the time, their price, their quantity and
/// their side.
pub proof fn law_every_level_has_its_row(
    timestamp: i64,
    levels: Seq<(i64, Amount)>,
    is_bid: bool,
    i: int,
)
    ensures
        crate::storage::level_rows(timestamp, levels, is_bid).len() == levels.len(),
        0 <= i < levels.len() ==> {
            let row = crate::storage::level_rows(timestamp, levels, is_bid)[i];
            &&& row.timestamp == timestamp
            &&& row.price == levels[i].0
            &&& row.qty == levels[i].1
            &&& row.is_bid == is_bid
        },
{
}

/// A file of a book has one row for every bid, then one for every ask, and no other.
pub proof fn law_file_of_a_book_holds_every_level(
    columns: Columns,
    timestamp: i64,
    bids: Seq<(i64, Amount)>,
    asks: Seq<(i64, Amount)>,
    i: int,
)
    requires
        columns.hold(
            crate::storage::level_rows(timestamp, bids, true) + crate::storage::level_rows(
                timestamp,
                asks,
                false,
            ),
        ),
    ensures
        has_rows(columns, (bids.len() + asks.len()) as int),
        0 <= i < bids.len() ==> gives_row(columns, i, timestamp, bids[i].0, bids[i].1, "BID"@),
        0 <= i < asks.len() ==> gives_row(
            columns,
            bids.len() + i,
            timestamp,
            asks[i].0,
            asks[i].1,
            "ASK"@,
        ),
{
    let rows = crate::storage::level_rows(timestamp, bids, true) + crate::storage::level_rows(
        timestamp,
        asks,
        false,
    );
    if 0 <= i < bids.len() {
        assert(rows[i].price == bids[i].0);
    }
    if 0 <= i < asks.len() {
        assert(rows[bids.len() + i].price == asks[i].0);
    }
}

/// The row of a tick keeps its time, price, quantity and side.
pub proof fn law_row_keeps_its_tick(tick: TickData)
    ensures
        crate::storage::tick_row(tick).timestamp == tick.timestamp,
        crate::storage::tick_row(tick).price == tick.price,
        crate::storage::tick_row(tick).qty == tick.qty,
        crate::storage::tick_row(tick).is_bid == tick.is_bid,
{
}

/// The rows of one side are put together from those of the parts of a run of ticks: a tick of the
/// side gives its row, one of the other side none.
pub proof fn law_ticks_are_written_one_by_one(
    first: Seq<TickData>,
    tick: TickData,
    second: Seq<TickData>,
    is_bid: bool,
)
    ensures
        crate::storage::side_rows(Seq::empty(), is_bid).len() == 0,
        crate::storage::side_rows(first + second, is_bid) == crate::storage::side_rows(
            first,
            is_bid,
        ) + crate::storage::side_rows(second, is_bid),
        tick.is_bid == is_bid ==> crate::storage::side_rows(seq![tick], is_bid) == seq![
            Row {
                timestamp: tick.timestamp,
                price: tick.price,
                qty: tick.qty,
                is_bid: tick.is_bid,
            },
        ],
        tick.is_bid != is_bid ==> crate::storage::side_rows(seq![tick], is_bid).len() == 0,
    decreases second.len(),
{
    let one = seq![tick];
    assert(one.drop_last() =~= Seq::<TickData>::empty());
    assert(one.last() == tick);
    reveal_with_fuel(crate::storage::side_rows, 2);
    if tick.is_bid == is_bid {
        assert(crate::storage::side_rows(one, is_bid) =~= seq![crate::storage::tick_row(tick)]);
    }
    let rows = |ticks: Seq<TickData>| crate::storage::side_rows(ticks, is_bid);
    if second.len() == 0 {
        assert(first + second =~= first);
        assert(rows(first) + rows(second) =~= rows(first));
    } else {
        law_ticks_are_written_one_by_one(first, tick, second.drop_last(), is_bid);
        assert((first + second).drop_last() =~= first + second.drop_last());
        assert((first + second).last() == second.last());
        assert(rows(first + second) =~= rows(first) + rows(second));
    }
}

/// A file of ticks has one row for each tick: first those of the bids, then those of the asks, each
/// side in the order its ticks came.
pub proof fn law_file_of_ticks_holds_every_tick(columns: Columns, ticks: Seq<TickData>, i: int)
    requires
        columns.hold(crate::storage::tick_rows(ticks)),
    ensures
        has_rows(columns, ticks.len() as int),
        0 <= i < ticks.len() ==> {
            let bids = crate::storage::side_rows(ticks, true).len() as int;
            let before = crate::storage::side_rows(ticks.take(i), ticks[i].is_bid).len() as int;
            if ticks[i].is_bid {
                gives_row(
                    columns,
                    before,
                    ticks[i].timestamp,
                    ticks[i].price,
                    ticks[i].qty,
                    "BID"@,
                )
            } else {
                gives_row(
                    columns,
                    bids + before,
                    ticks[i].timestamp,
                    ticks[i].price,
                    ticks[i].qty,
                    "ASK"@,
                )
            }
        },
{
    crate::laws::law_every_tick_has_its_row(ticks);
    let rows = crate::storage::tick_rows(ticks);
    if 0 <= i < ticks.len() {
        let tick = ticks[i];
        let side = tick.is_bid;
        law_ticks_are_written_one_by_one(ticks.take(i), tick, ticks.skip(i), side);
        law_ticks_are_written_one_by_one(seq![tick], tick, ticks.skip(i + 1), side);
        assert(ticks.take(i) + ticks.skip(i) =~= ticks);
        assert(seq![tick] + ticks.skip(i + 1) =~= ticks.skip(i));
        let before = crate::storage::side_rows(ticks.take(i), side);
        let own = crate::storage::side_rows(seq![tick], side);
        let behind = crate::storage::side_rows(ticks.skip(i + 1), side);
        let all = crate::storage::side_rows(ticks, side);
        assert(all == before + (own + behind));
        assert(own.len() == 1);
        assert(all[before.len() as int] == own[0]);
        let at = if side {
            before.len() as int
        } else {
            (crate::storage::side_rows(ticks, true).len() + before.len()) as int
        };
        assert(rows[at] == own[0]);
        assert(rows[at] == crate::storage::tick_row(tick));
    }
}

/// The columns hold some rows exactly where each row stands in its place in all of them.
pub proof fn law_columns_hold_their_rows(columns: Columns, rows: Seq<Row>, i: int)
    ensures
        columns.hold(rows) ==> has_rows(columns, rows.len() as int),
        columns.hold(rows) && 0 <= i < rows.len() ==> gives_row(
            columns,
            i,
            rows[i].timestamp,
            rows[i].price,
            rows[i].qty,
            if rows[i].is_bid {
                "BID"@
            } else {
                "ASK"@
            },
        ),
        has_rows(columns, rows.len() as int) && (forall|k: int|
            0 <= k < rows.len() ==> gives_row(
                columns,
                k,
                (#[trigger] rows[k]).timestamp,
                rows[k].price,
                rows[k].qty,
                if rows[k].is_bid {
                    "BID"@
                } else {
                    "ASK"@
                },
            )) ==> columns.hold(rows),
{
}

// ---- files ----

/// A snapshot goes to a file of its own, which is cut off; ticks are written behind what is there.
/// The path is made of the base path, the kind, the folder and the time, all of them whole.
pub proof fn law_file_is_named_by_kind_folder_and_time(
    file: OutputFile,
    base: Seq<char>,
    folder: Seq<char>,
    stamp: Seq<char>,
)
    ensures
        file.is_file_of(base, folder, true, stamp) ==> {
            &&& file.directory@ == base + "/snapshots/"@ + folder
            &&& file.path@ == file.directory@ + "/book_snap_"@ + stamp + ".parquet"@
            &&& !file.append
        },
        file.is_file_of(base, folder, false, stamp) ==> {
            &&& file.directory@ == base + "/incremental/"@ + folder
            &&& file.path@ == file.directory@ + "/tick_diff_"@ + stamp + ".parquet"@
            &&& file.append
        },
        crate::storage::kind_directory_text(base, true) == base + "/snapshots"@,
        crate::storage::kind_directory_text(base, false) == base + "/incremental"@,
{
    reveal_strlit("/");
    reveal_strlit("_");
    reveal_strlit("snapshots");
    reveal_strlit("incremental");
    reveal_strlit("book_snap");
    reveal_strlit("tick_diff");
    reveal_strlit("/snapshots");
    reveal_strlit("/incremental");
    reveal_strlit("/snapshots/");
    reveal_strlit("/incremental/");
    reveal_strlit("/book_snap_");
    reveal_strlit("/tick_diff_");
    assert("/"@ + "snapshots"@ =~= "/snapshots"@);
    assert("/"@ + "incremental"@ =~= "/incremental"@);
    assert(base + "/"@ + "snapshots"@ =~= base + "/snapshots"@);
    assert(base + "/"@ + "incremental"@ =~= base + "/incremental"@);
    assert("/snapshots"@ + "/"@ =~= "/snapshots/"@);
    assert("/incremental"@ + "/"@ =~= "/incremental/"@);
    assert(base + "/snapshots"@ + "/"@ + folder =~= base + "/snapshots/"@ + folder) by {
        assert(base + "/snapshots"@ + "/"@ =~= base + ("/snapshots"@ + "/"@));
    }
    assert(base + "/incremental"@ + "/"@ + folder =~= base + "/incremental/"@ + folder) by {
        assert(base + "/incremental"@ + "/"@ =~= base + ("/incremental"@ + "/"@));
    }
    let directory = file.directory@;
    assert("/"@ + "book_snap"@ + "_"@ =~= "/book_snap_"@);
    assert("/"@ + "tick_diff"@ + "_"@ =~= "/tick_diff_"@);
    assert(directory + "/"@ + "book_snap"@ + "_"@ =~= directory + ("/"@ + "book_snap"@ + "_"@));
    assert(directory + "/"@ + "tick_diff"@ + "_"@ =~= directory + ("/"@ + "tick_diff"@ + "_"@));
}

/// Only the user of the server has the data in the home directory; any other user has it in the
/// working directory.
pub proof fn law_data_is_kept_by_user(user: Seq<char>)
    ensures
        user == "ubuntu"@ ==> crate::storage::base_path_text(user) == "/home/ubuntu/data"@,
        user != "ubuntu"@ ==> crate::storage::base_path_text(user) == "./data"@,
{
}

// ---- buffer ----

/// A tick makes the buffer due exactly where it is the ten thousandth, or where ten seconds have
/// passed. Then nothing is left to wait and the time counts anew; otherwise the tick waits behind
/// the others.
pub proof fn law_tick_waits_until_the_buffer_is_due(
    buffer: BufferState,
    tick: TickData,
    now: i64,
)
    ensures
        buffer.due(now) <==> buffer.ticks.len() >= 9_999 || now >= buffer.last_flush_time + 10,
        buffer.due(now) ==> {
            &&& buffer.pushed(tick, now).ticks.len() == 0
            &&& buffer.pushed(tick, now).last_flush_time == now
        },
        !buffer.due(now) ==> {
            &&& buffer.pushed(tick, now).ticks == buffer.ticks.push(tick)
            &&& buffer.pushed(tick, now).last_flush_time == buffer.last_flush_time
        },
{
}

/// A buffer that is looked at is emptied exactly where ticks wait and ten seconds have passed.
pub proof fn law_waiting_ticks_become_overdue(buffer: BufferState, now: i64)
    ensures
        buffer.overdue(now) <==> buffer.ticks.len() > 0 && now >= buffer.last_flush_time + 10,
        buffer.overdue(now) ==> {
            &&& buffer.polled(now).ticks.len() == 0
            &&& buffer.polled(now).last_flush_time == now
        },
        !buffer.overdue(now) ==> {
            &&& buffer.polled(now).ticks == buffer.ticks
            &&& buffer.polled(now).last_flush_time == buffer.last_flush_time
        },
{
}

/// What is said of a buffer is said of what it holds.
pub proof fn law_buffer_is_what_it_holds(buffer: TickBuffer)
    ensures
        buffer@.ticks == buffer.ticks@,
        buffer@.last_flush_time == buffer.last_flush_time,
{
}

// ---- scheduler ----

/// The six intervals that are known, in minutes; any other one is an hour.
pub proof fn law_intervals_are_known(interval: Seq<char>)
    ensures
        interval == "15m"@ ==> crate::storage::interval_minutes(interval) == 15,
        interval == "30m"@ ==> crate::storage::interval_minutes(interval) == 30,
        interval == "1h"@ ==> crate::storage::interval_minutes(interval) == 60,
        interval == "2h"@ ==> crate::storage::interval_minutes(interval) == 120,
        interval == "4h"@ ==> crate::storage::interval_minutes(interval) == 240,
        interval == "12h"@ ==> crate::storage::interval_minutes(interval) == 720,
        interval != "15m"@ && interval != "30m"@ && interval != "2h"@ && interval != "4h"@
            && interval != "12h"@ ==> crate::storage::interval_minutes(interval) == 60,
{
    reveal_strlit("15m");
    reveal_strlit("30m");
    reveal_strlit("1h");
    reveal_strlit("2h");
    reveal_strlit("4h");
    reveal_strlit("12h");
    assert("15m"@[0] != "30m"@[0]);
    assert("15m"@[1] != "12h"@[1]);
    assert("30m"@[0] != "12h"@[0]);
    assert("1h"@[0] != "2h"@[0] && "1h"@[0] != "4h"@[0] && "2h"@[0] != "4h"@[0]);
}

/// A scheduler fires in the first minute of a bucket that did not fire last, whatever bucket that
/// is, and in no other minute. It remembers the bucket exactly where it fires.
pub proof fn law_scheduler_fires_where_a_bucket_begins(
    scheduler: SchedulerState,
    bucket: int,
    minute: int,
)
    requires
        0 <= minute < crate::storage::interval_minutes(scheduler.interval),
        0 <= bucket,
    ensures
        ({
            let length = crate::storage::interval_minutes(scheduler.interval);
            let at = bucket * length + minute;
            let after = scheduler.asked_at(at);
            &&& scheduler.fires_at(at) <==> minute == 0 && bucket != scheduler.last_bucket
            &&& after.interval == scheduler.interval
            &&& after.last_bucket == if minute == 0 {
                bucket
            } else {
                scheduler.last_bucket
            }
        }),
{
    let length = crate::storage::interval_minutes(scheduler.interval);
    let at = bucket * length + minute;
    vstd::arithmetic::div_mod::lemma_fundamental_div_mod_converse(at, length, bucket, minute);
}

/// The minute of the day counts up from midnight to midnight, one for each sixty seconds.
pub proof fn law_minutes_are_counted_from_midnight(day: int, minute: int, second: int, secs: i64)
    requires
        0 <= minute < 1440,
        0 <= second < 60,
        secs == day * 86_400 + minute * 60 + second,
    ensures
        crate::utc::minute_of_day(secs) == minute,
{
}

/// The moments are those that the calendar reaches, from the first second of its first year to the
/// last of its last one; a nanosecond past the full second is one of a leap second.
pub proof fn law_moments_are_those_of_the_calendar(secs: i64, nanos: u32)
    ensures
        crate::utc::is_moment(secs) <==> -8_334_601_228_800 <= secs <= 8_210_266_876_799,
        nanos < 1_000_000_000 ==> crate::utc::is_nanosecond(secs, nanos),
        1_000_000_000 <= nanos < 2_000_000_000 ==> (crate::utc::is_nanosecond(secs, nanos) <==> (
        secs + 1) % 60 == 0),
        nanos >= 2_000_000_000 ==> !crate::utc::is_nanosecond(secs, nanos),
{
}

} // verus!
