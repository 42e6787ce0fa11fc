//! What is written to disk, where, and when.
use vstd::prelude::*;
use vstd::string::StringExecFns;

use crate::amount::Amount;
use crate::text::join3;
use crate::text::join5;
use crate::text::same_text;
use crate::text::to_uppercase;
use crate::utc::format_utc;
use crate::utc::utc_hour;
use crate::utc::utc_minute;
use crate::utc::FILE_STAMP_FORMAT;

verus! {

/// One changed level, as it came in.
#[derive(Debug)]
pub struct TickData {
    /// When the change was received, in milliseconds; the row keeps it.
    pub timestamp: i64,
    pub symbol: String,
    pub price: i64,
    pub qty: Amount,
    pub is_bid: bool,
}

/// What a scheduler remembers.
pub struct SchedulerState {
    pub interval: Seq<char>,
    /// The bucket of the day that fired last; minus one where none has.
    pub last_bucket: int,
}

/// How long a bucket is, in minutes; an hour where the interval is not a known one.
pub open spec fn interval_minutes(interval: Seq<char>) -> int {
    if interval == "15m"@ {
        15
    } else if interval == "30m"@ {
        30
    } else if interval == "1h"@ {
        60
    } else if interval == "2h"@ {
        120
    } else if interval == "4h"@ {
        240
    } else if interval == "12h"@ {
        720
    } else {
        60
    }
}

impl SchedulerState {
    /// Whether the scheduler fires at this minute of the day: where a bucket begins that did not
    /// fire last.
    pub open spec fn fires_at(self, minute: int) -> bool {
        &&& minute % interval_minutes(self.interval) == 0
        &&& minute / interval_minutes(self.interval) != self.last_bucket
    }

    /// The scheduler after it was asked at this minute of the day.
    pub open spec fn asked_at(self, minute: int) -> SchedulerState {
        if self.fires_at(minute) {
            SchedulerState { last_bucket: minute / interval_minutes(self.interval), ..self }
        } else {
            self
        }
    }
}

/// Fires once at the beginning of each interval, counted from midnight in UTC.
pub struct SnapshotScheduler {
    interval_str: String,
    last_triggered_bucket: i64,
}

impl View for SnapshotScheduler {
    type V = SchedulerState;

    closed spec fn view(&self) -> SchedulerState {
        SchedulerState {
            interval: self.interval_str@,
            last_bucket: self.last_triggered_bucket as int,
        }
    }
}

impl SnapshotScheduler {
    /// A scheduler that has not fired yet.
    pub fn new(interval: &str) -> (r: SnapshotScheduler)
        ensures
            r@ == (SchedulerState { interval: interval@, last_bucket: -1 }),
    {
        SnapshotScheduler { interval_str: interval.to_string(), last_triggered_bucket: -1 }
    }

    /// Whether to fire at `now`, in seconds since the Unix epoch.
    pub fn should_trigger(&mut self, now: i64) -> (r: bool)
        requires
            crate::utc::is_moment(now),
        ensures
            r == old(self)@.fires_at(crate::utc::minute_of_day(now)),
            final(self)@ == old(self)@.asked_at(crate::utc::minute_of_day(now)),
    {
        let hour = utc_hour(now);
        let minute = utc_minute(now);
        proof {
            crate::utc::lemma_minute_of_day(now);
            assert(hour * 60 + minute == crate::utc::minute_of_day(now));
        }
        self.should_trigger_at(hour, minute)
    }

    /// Whether to fire at this hour and minute of the day.
    pub fn should_trigger_at(&mut self, hour: u32, minute: u32) -> (r: bool)
        requires
            hour < 24,
            minute < 60,
        ensures
            r == old(self)@.fires_at(hour * 60 + minute),
            final(self)@ == old(self)@.asked_at(hour * 60 + minute),
    {
        let minutes: i64 = (hour * 60 + minute) as i64;
        let interval = self.minutes();
        let bucket: i64 = minutes / interval;
        let remainder: i64 = minutes % interval;
        if remainder == 0 && bucket != self.last_triggered_bucket {
            self.last_triggered_bucket = bucket;
            return true;
        }
        false
    }

    fn minutes(&self) -> (r: i64)
        ensures
            r == interval_minutes(self@.interval),
            r > 0,
    {
        let interval = self.interval_str.as_str();
        if same_text(interval, "15m") {
            15
        } else if same_text(interval, "30m") {
            30
        } else if same_text(interval, "1h") {
            60
        } else if same_text(interval, "2h") {
            120
        } else if same_text(interval, "4h") {
            240
        } else if same_text(interval, "12h") {
            720
        } else {
            60
        }
    }
}

/// One row of a file.
pub struct Row {
    pub timestamp: i64,
    pub price: i64,
    pub qty: Amount,
    pub is_bid: bool,
}

/// How a side is written.
pub open spec fn side_text(is_bid: bool) -> Seq<char> {
    if is_bid {
        "BID"@
    } else {
        "ASK"@
    }
}

/// Rows by column, as they are written.
pub struct Columns {
    pub timestamps: Vec<i64>,
    pub prices: Vec<i64>,
    pub quantities: Vec<Amount>,
    pub sides: Vec<&'static str>,
}

impl Columns {
    /// Whether the columns hold exactly these rows.
    pub open spec fn hold(&self, rows: Seq<Row>) -> bool {
        &&& self.timestamps.len() == rows.len()
        &&& self.prices.len() == rows.len()
        &&& self.quantities.len() == rows.len()
        &&& self.sides.len() == rows.len()
        &&& forall|i: int|
            #![trigger rows[i]]
            0 <= i < rows.len() ==> {
                &&& self.timestamps@[i] == rows[i].timestamp
                &&& self.prices@[i] == rows[i].price
                &&& self.quantities@[i] == rows[i].qty
                &&& self.sides@[i]@ == side_text(rows[i].is_bid)
            }
    }

    fn empty() -> (r: Columns)
        ensures
            r.hold(Seq::empty()),
    {
        Columns {
            timestamps: Vec::new(),
            prices: Vec::new(),
            quantities: Vec::new(),
            sides: Vec::new(),
        }
    }

    fn push(&mut self, timestamp: i64, price: i64, qty: Amount, is_bid: bool)
        ensures
            forall|rows: Seq<Row>| #[trigger]
                old(self).hold(rows) ==> final(self).hold(
                    rows.push(Row { timestamp, price, qty, is_bid }),
                ),
    {
        self.timestamps.push(timestamp);
        self.prices.push(price);
        self.quantities.push(qty);
        self.sides.push(
            if is_bid {
                "BID"
            } else {
                "ASK"
            },
        );
    }
}

/// The rows of some levels of one side, all with the same time.
pub open spec fn level_rows(timestamp: i64, levels: Seq<(i64, Amount)>, is_bid: bool) -> Seq<Row> {
    levels.map_values(
        |level: (i64, Amount)| Row { timestamp, price: level.0, qty: level.1, is_bid },
    )
}

/// The row of a tick.
pub open spec fn tick_row(tick: TickData) -> Row {
    Row { timestamp: tick.timestamp, price: tick.price, qty: tick.qty, is_bid: tick.is_bid }
}

/// The rows of the ticks of one side, in the order the ticks came.
pub open spec fn side_rows(ticks: Seq<TickData>, is_bid: bool) -> Seq<Row>
    decreases ticks.len(),
{
    if ticks.len() == 0 {
        Seq::empty()
    } else if ticks.last().is_bid == is_bid {
        side_rows(ticks.drop_last(), is_bid).push(tick_row(ticks.last()))
    } else {
        side_rows(ticks.drop_last(), is_bid)
    }
}

/// The rows of some ticks: the bids first, then the asks.
pub open spec fn tick_rows(ticks: Seq<TickData>) -> Seq<Row> {
    side_rows(ticks, true) + side_rows(ticks, false)
}

/// The columns of the levels of both sides, the bids first, all with the same time.
pub fn level_columns(
    timestamp: i64,
    bids: &Vec<(i64, Amount)>,
    asks: &Vec<(i64, Amount)>,
) -> (r: Columns)
    ensures
        r.hold(level_rows(timestamp, bids@, true) + level_rows(timestamp, asks@, false)),
{
    let ghost bid_rows = level_rows(timestamp, bids@, true);
    let ghost ask_rows = level_rows(timestamp, asks@, false);
    let mut columns = Columns::empty();
    let mut i: usize = 0;
    assert(bid_rows.take(0) =~= Seq::<Row>::empty());
    while i < bids.len()
        invariant
            i <= bids.len(),
            bid_rows == level_rows(timestamp, bids@, true),
            columns.hold(bid_rows.take(i as int)),
        decreases bids.len() - i,
    {
        let (price, qty) = bids[i];
        columns.push(timestamp, price, qty, true);
        assert(bid_rows.take(i + 1) =~= bid_rows.take(i as int).push(bid_rows[i as int]));
        i = i + 1;
    }
    assert(bid_rows.take(i as int) =~= bid_rows);
    assert(bid_rows + ask_rows.take(0) =~= bid_rows);
    let mut j: usize = 0;
    while j < asks.len()
        invariant
            j <= asks.len(),
            ask_rows == level_rows(timestamp, asks@, false),
            columns.hold(bid_rows + ask_rows.take(j as int)),
        decreases asks.len() - j,
    {
        let (price, qty) = asks[j];
        columns.push(timestamp, price, qty, false);
        assert(bid_rows + ask_rows.take(j + 1) =~= (bid_rows + ask_rows.take(j as int)).push(
            ask_rows[j as int],
        ));
        j = j + 1;
    }
    assert(ask_rows.take(j as int) =~= ask_rows);
    columns
}

/// The columns of some ticks, the bids first; each row keeps the time of its tick.
pub fn tick_columns(ticks: &Vec<TickData>) -> (r: Columns)
    ensures
        r.hold(tick_rows(ticks@)),
{
    let mut columns = Columns::empty();
    let mut i: usize = 0;
    assert(ticks@.take(0) =~= Seq::<TickData>::empty());
    while i < ticks.len()
        invariant
            i <= ticks.len(),
            columns.hold(side_rows(ticks@.take(i as int), true)),
        decreases ticks.len() - i,
    {
        let tick = &ticks[i];
        assert(ticks@.take(i + 1).drop_last() =~= ticks@.take(i as int));
        if tick.is_bid {
            columns.push(tick.timestamp, tick.price, tick.qty, true);
        }
        i = i + 1;
    }
    assert(ticks@.take(i as int) =~= ticks@);
    let ghost bid_rows = side_rows(ticks@, true);
    let mut j: usize = 0;
    assert(bid_rows + side_rows(ticks@.take(0), false) =~= bid_rows);
    while j < ticks.len()
        invariant
            j <= ticks.len(),
            columns.hold(bid_rows + side_rows(ticks@.take(j as int), false)),
        decreases ticks.len() - j,
    {
        let tick = &ticks[j];
        let ghost ask_rows = side_rows(ticks@.take(j as int), false);
        assert(ticks@.take(j + 1).drop_last() =~= ticks@.take(j as int));
        if !tick.is_bid {
            columns.push(tick.timestamp, tick.price, tick.qty, false);
            assert((bid_rows + ask_rows).push(tick_row(*tick)) =~= bid_rows + ask_rows.push(
                tick_row(*tick),
            ));
        }
        j = j + 1;
    }
    assert(ticks@.take(j as int) =~= ticks@);
    columns
}

/// A file to write to.
pub struct OutputFile {
    pub directory: String,
    pub path: String,
    /// Whether what is there is kept and written behind; otherwise it is cut off.
    pub append: bool,
}

/// The directory of all files of one kind.
pub open spec fn kind_directory_text(base: Seq<char>, is_snapshot: bool) -> Seq<char> {
    base + "/"@ + if is_snapshot {
        "snapshots"@
    } else {
        "incremental"@
    }
}

impl OutputFile {
    /// Whether this is the file of a kind, a folder and a time.
    pub open spec fn is_file_of(
        &self,
        base: Seq<char>,
        folder: Seq<char>,
        is_snapshot: bool,
        stamp: Seq<char>,
    ) -> bool {
        let prefix = if is_snapshot {
            "book_snap"@
        } else {
            "tick_diff"@
        };
        &&& self.directory@ == kind_directory_text(base, is_snapshot) + "/"@ + folder
        &&& self.path@ == self.directory@ + "/"@ + prefix + "_"@ + stamp + ".parquet"@
        &&& self.append == !is_snapshot
    }
}

/// The directory of all snapshots, or of all incremental files.
pub fn kind_directory(base_path: &str, is_snapshot: bool) -> (r: String)
    ensures
        r@ == kind_directory_text(base_path@, is_snapshot),
{
    if is_snapshot {
        join3(base_path, "/", "snapshots")
    } else {
        join3(base_path, "/", "incremental")
    }
}

/// The file for the given folder and time.
pub fn output_file_at(
    base_path: &str,
    folder: &str,
    is_snapshot: bool,
    stamp: &str,
) -> (r: OutputFile)
    ensures
        r.is_file_of(base_path@, folder@, is_snapshot, stamp@),
{
    let kind = kind_directory(base_path, is_snapshot);
    let directory = join3(kind.as_str(), "/", folder);
    let prefix = if is_snapshot {
        "book_snap"
    } else {
        "tick_diff"
    };
    let mut path = join5(directory.as_str(), "/", prefix, "_", stamp);
    path.append(".parquet");
    OutputFile { directory, path, append: !is_snapshot }
}

/// The file for a symbol at `now`, in seconds since the Unix epoch.
pub fn output_file(base_path: &str, symbol: &str, is_snapshot: bool, now: i64) -> (r: OutputFile)
    requires
        crate::utc::is_moment(now),
    ensures
        r.is_file_of(
            base_path@,
            crate::text::uppercase(symbol@),
            is_snapshot,
            crate::utc::formatted(now, FILE_STAMP_FORMAT@),
        ),
{
    let folder = to_uppercase(symbol);
    let stamp = format_utc(now, FILE_STAMP_FORMAT);
    output_file_at(base_path, folder.as_str(), is_snapshot, stamp.as_str())
}

/// A file and the rows to write to it.
pub struct Batch {
    pub file: OutputFile,
    pub columns: Columns,
}

/// What to write of the levels of a book: nothing where both sides are empty.
pub fn level_batch(
    symbol: &str,
    timestamp: i64,
    bids: &Vec<(i64, Amount)>,
    asks: &Vec<(i64, Amount)>,
    base_path: &str,
    is_snapshot: bool,
    now: i64,
) -> (r: Option<Batch>)
    requires
        crate::utc::is_moment(now),
    ensures
        match r {
            Some(batch) => {
                &&& bids.len() + asks.len() > 0
                &&& batch.file.is_file_of(
                    base_path@,
                    crate::text::uppercase(symbol@),
                    is_snapshot,
                    crate::utc::formatted(now, FILE_STAMP_FORMAT@),
                )
                &&& batch.columns.hold(
                    level_rows(timestamp, bids@, true) + level_rows(timestamp, asks@, false),
                )
            },
            None => bids.len() == 0 && asks.len() == 0,
        },
{
    if bids.len() == 0 && asks.len() == 0 {
        return None;
    }
    Some(
        Batch {
            file: output_file(base_path, symbol, is_snapshot, now),
            columns: level_columns(timestamp, bids, asks),
        },
    )
}

/// What to write of some ticks, in the folder of the first one's symbol: nothing where there is
/// no tick.
pub fn tick_batch(ticks: &Vec<TickData>, base_path: &str, now: i64) -> (r: Option<Batch>)
    requires
        crate::utc::is_moment(now),
    ensures
        match r {
            Some(batch) => {
                &&& ticks.len() > 0
                &&& batch.file.is_file_of(
                    base_path@,
                    crate::text::uppercase(ticks@[0].symbol@),
                    false,
                    crate::utc::formatted(now, FILE_STAMP_FORMAT@),
                )
                &&& batch.columns.hold(tick_rows(ticks@))
            },
            None => ticks.len() == 0,
        },
{
    if ticks.len() == 0 {
        return None;
    }
    Some(
        Batch {
            file: output_file(base_path, ticks[0].symbol.as_str(), false, now),
            columns: tick_columns(ticks),
        },
    )
}

/// So many ticks are written at once.
pub const FLUSH_TICKS: usize = 10_000;

/// Ticks that wait are written once this many seconds have passed since some last were.
pub const FLUSH_SECS: i64 = 10;

/// What a buffer holds.
pub struct BufferState {
    pub ticks: Seq<TickData>,
    /// When ticks were last written, in seconds.
    pub last_flush_time: int,
}

impl BufferState {
    /// Whether one more tick at `now` makes the buffer due.
    pub open spec fn due(self, now: i64) -> bool {
        self.ticks.len() + 1 >= FLUSH_TICKS || now - self.last_flush_time >= FLUSH_SECS
    }

    /// Whether ticks have waited out the interval at `now`, though no other comes in.
    pub open spec fn overdue(self, now: i64) -> bool {
        self.ticks.len() > 0 && now - self.last_flush_time >= FLUSH_SECS
    }

    /// The buffer after it was looked at, at `now`: empty where it was overdue.
    pub open spec fn polled(self, now: i64) -> BufferState {
        if self.overdue(now) {
            BufferState { ticks: Seq::empty(), last_flush_time: now as int }
        } else {
            self
        }
    }

    /// The buffer after one more tick at `now`: empty where it was due.
    pub open spec fn pushed(self, tick: TickData, now: i64) -> BufferState {
        if self.due(now) {
            BufferState { ticks: Seq::empty(), last_flush_time: now as int }
        } else {
            BufferState { ticks: self.ticks.push(tick), ..self }
        }
    }
}

/// Ticks that wait to be written.
pub struct TickBuffer {
    pub ticks: Vec<TickData>,
    pub last_flush_time: i64,
}

impl View for TickBuffer {
    type V = BufferState;

    open spec fn view(&self) -> BufferState {
        BufferState { ticks: self.ticks@, last_flush_time: self.last_flush_time as int }
    }
}

impl TickBuffer {
    /// An empty buffer that counts from `now`.
    pub fn new(now: i64) -> (r: TickBuffer)
        ensures
            r@ == (BufferState { ticks: Seq::empty(), last_flush_time: now as int }),
    {
        TickBuffer { ticks: Vec::new(), last_flush_time: now }
    }

    /// Takes in one more tick at `now`. Where the buffer is due, hands all ticks out, in the order
    /// they came, and starts over.
    pub fn push(&mut self, tick: TickData, now: i64) -> (r: Option<Vec<TickData>>)
        ensures
            match r {
                Some(flushed) => old(self)@.due(now) && flushed@ == old(self)@.ticks.push(tick),
                None => !old(self)@.due(now),
            },
            final(self)@ == old(self)@.pushed(tick, now),
    {
        self.ticks.push(tick);
        let waited: i128 = now as i128 - self.last_flush_time as i128;
        if self.ticks.len() >= FLUSH_TICKS || waited >= FLUSH_SECS as i128 {
            let mut flushed: Vec<TickData> = Vec::new();
            std::mem::swap(&mut flushed, &mut self.ticks);
            self.last_flush_time = now;
            Some(flushed)
        } else {
            None
        }
    }

    /// Looks at the buffer at `now`, while no tick comes in. Where ticks have waited out the
    /// interval, hands all of them out, in the order they came, and starts over.
    pub fn poll(&mut self, now: i64) -> (r: Option<Vec<TickData>>)
        ensures
            match r {
                Some(flushed) => old(self)@.overdue(now) && flushed@ == old(self)@.ticks,
                None => !old(self)@.overdue(now),
            },
            final(self)@ == old(self)@.polled(now),
    {
        let waited: i128 = now as i128 - self.last_flush_time as i128;
        if self.ticks.len() > 0 && waited >= FLUSH_SECS as i128 {
            let mut flushed: Vec<TickData> = Vec::new();
            std::mem::swap(&mut flushed, &mut self.ticks);
            self.last_flush_time = now;
            Some(flushed)
        } else {
            None
        }
    }

    /// Hands out what still waits, once no tick will come any more.
    pub fn finish(self) -> (r: Vec<TickData>)
        ensures
            r@ == self@.ticks,
    {
        self.ticks
    }
}

/// Where the data of a user is kept.
pub open spec fn base_path_text(user: Seq<char>) -> Seq<char> {
    if user == "ubuntu"@ {
        "/home/ubuntu/data"@
    } else {
        "./data"@
    }
}

/// Where the data is kept: in the home directory on the server, in the working directory
/// elsewhere.
pub fn base_data_path(user: &str) -> (r: &'static str)
    ensures
        r@ == base_path_text(user@),
{
    if same_text(user, "ubuntu") {
        "/home/ubuntu/data"
    } else {
        "./data"
    }
}

} // verus!
