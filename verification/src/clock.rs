//! How late a message is, once the clocks have been brought in line.
use vstd::prelude::*;

use crate::model::NetworkConfig;

verus! {

/// Keeps the offset between the local clock and that of the exchange. The least raw latency of a
/// round of messages is taken to be the network floor; what it differs by is the offset.
pub struct ClockSync {
    /// What is added to the local clock.
    pub offset: i128,
    /// The least raw latency of this round, once there is one.
    pub min_raw_latency: Option<i128>,
    /// How many messages came in this round.
    pub messages: i64,
    pub floor: i64,
    pub round_length: i64,
}

/// The lesser of a latency and the least one so far.
pub open spec fn least(so_far: Option<i128>, latency: int) -> int {
    match so_far {
        Some(l) => if latency < l {
            latency
        } else {
            l as int
        },
        None => latency,
    }
}

/// A difference of two clock readings.
pub open spec fn is_difference(n: int) -> bool {
    i64::MIN - i64::MAX <= n <= i64::MAX - i64::MIN
}

impl ClockSync {
    /// The numbers stay in the range that clock readings give them.
    pub open spec fn well_formed(&self) -> bool {
        &&& self.min_raw_latency matches Some(l) ==> is_difference(l as int)
        &&& -0x4_0000_0000_0000_0000 <= self.offset <= 0x4_0000_0000_0000_0000
    }

    /// Whether the message at hand ends the round.
    pub open spec fn round_over(&self) -> bool {
        self.messages >= self.round_length
    }

    /// The offset that the round gives when it ends with a message of this raw latency.
    pub open spec fn new_offset(&self, raw_latency: int) -> int {
        self.floor - least(self.min_raw_latency, raw_latency)
    }

    /// The clock after one more message came in.
    pub open spec fn counted(self) -> ClockSync {
        ClockSync {
            messages: if self.messages < i64::MAX {
                (self.messages + 1) as i64
            } else {
                i64::MAX
            },
            ..self
        }
    }

    /// The clock after a message was received and read.
    pub open spec fn observed(self, received: i64, made: i64) -> ClockSync {
        if self.round_over() {
            ClockSync {
                offset: self.new_offset(received - made) as i128,
                min_raw_latency: None,
                messages: 0,
                ..self
            }
        } else {
            ClockSync {
                min_raw_latency: Some(least(self.min_raw_latency, received - made) as i128),
                ..self
            }
        }
    }

    /// A clock that has not been corrected yet.
    pub fn new(network: &NetworkConfig) -> (r: ClockSync)
        ensures
            r.well_formed(),
            r.offset == 0,
            r.min_raw_latency is None,
            r.messages == 0,
            r.floor == network.base_network_floor,
            r.round_length == network.pkt_loop_threshold,
    {
        ClockSync {
            offset: 0,
            min_raw_latency: None,
            messages: 0,
            floor: network.base_network_floor,
            round_length: network.pkt_loop_threshold,
        }
    }

    /// Counts a message that came in, whether or not it can be read.
    pub fn count(&mut self)
        requires
            old(self).well_formed(),
        ensures
            final(self).well_formed(),
            *final(self) == old(self).counted(),
            final(self).messages == if old(self).messages < i64::MAX {
                old(self).messages + 1
            } else {
                i64::MAX as int
            },
            final(self).offset == old(self).offset,
            final(self).min_raw_latency == old(self).min_raw_latency,
            final(self).floor == old(self).floor,
            final(self).round_length == old(self).round_length,
    {
        if self.messages < i64::MAX {
            self.messages = self.messages + 1;
        }
    }

    /// Takes in when a message was received and when the exchange made it, both in milliseconds,
    /// and returns its latency with the clocks in line. Where the round is over, the offset is
    /// first computed anew, this message included.
    pub fn observe(&mut self, received: i64, made: i64) -> (r: i128)
        requires
            old(self).well_formed(),
        ensures
            final(self).well_formed(),
            *final(self) == old(self).observed(received, made),
            final(self).floor == old(self).floor,
            final(self).round_length == old(self).round_length,
            r == received - made + final(self).offset,
            old(self).round_over() ==> {
                &&& final(self).offset == old(self).new_offset(received - made)
                &&& final(self).min_raw_latency is None
                &&& final(self).messages == 0
            },
            !old(self).round_over() ==> {
                &&& final(self).offset == old(self).offset
                &&& final(self).min_raw_latency matches Some(l) && l == least(
                    old(self).min_raw_latency,
                    received - made,
                )
                &&& final(self).messages == old(self).messages
            },
    {
        let raw_latency: i128 = received as i128 - made as i128;
        let least: i128 = match self.min_raw_latency {
            Some(l) => if raw_latency < l {
                raw_latency
            } else {
                l
            },
            None => raw_latency,
        };
        if self.messages >= self.round_length {
            self.offset = self.floor as i128 - least;
            self.min_raw_latency = None;
            self.messages = 0;
        } else {
            self.min_raw_latency = Some(least);
        }
        raw_latency + self.offset
    }
}

/// So many processing times are averaged.
pub const REPORT_TICKS: usize = 1000;

/// The longest time that a clock can measure, in nanoseconds.
pub const LONGEST_TIME: u128 = 18_446_744_073_709_551_615_999_999_999;

/// Average, longest and shortest of some processing times.
#[derive(Debug, PartialEq, Eq, Structural, Clone, Copy)]
pub struct SpeedReport {
    pub average: u128,
    pub longest: u128,
    pub shortest: u128,
}

/// The sum of some times.
pub open spec fn total(times: Seq<u128>) -> int
    decreases times.len(),
{
    if times.len() == 0 {
        0
    } else {
        total(times.drop_last()) + times.last()
    }
}

impl SpeedReport {
    /// Whether this is the report of these times.
    pub open spec fn sums_up(self, times: Seq<u128>) -> bool {
        &&& self.average == total(times) / REPORT_TICKS as int
        &&& times.contains(self.longest)
        &&& times.contains(self.shortest)
        &&& forall|i: int|
            0 <= i < times.len() ==> self.shortest <= #[trigger] times[i] <= self.longest
    }
}

/// Collects processing times and reports on each thousand of them.
pub struct SpeedMeter {
    pub times: Vec<u128>,
}

impl SpeedMeter {
    /// Fewer times wait than make up a report, and each is one that a clock can measure.
    pub open spec fn well_formed(&self) -> bool {
        &&& self.times.len() < REPORT_TICKS
        &&& forall|i: int| 0 <= i < self.times.len() ==> #[trigger] self.times@[i] <= LONGEST_TIME
    }

    /// A meter without times.
    pub fn new() -> (r: SpeedMeter)
        ensures
            r.well_formed(),
            r.times@ == Seq::<u128>::empty(),
    {
        SpeedMeter { times: Vec::new() }
    }

    /// Takes in one more time; once a thousand are there, reports on them and starts over.
    pub fn record(&mut self, elapsed: u128) -> (r: Option<SpeedReport>)
        requires
            old(self).well_formed(),
            elapsed <= LONGEST_TIME,
        ensures
            final(self).well_formed(),
            match r {
                Some(report) => {
                    &&& old(self).times.len() + 1 == REPORT_TICKS
                    &&& report.sums_up(old(self).times@.push(elapsed))
                    &&& final(self).times@ == Seq::<u128>::empty()
                },
                None => {
                    &&& old(self).times.len() + 1 < REPORT_TICKS
                    &&& final(self).times@ == old(self).times@.push(elapsed)
                },
            },
    {
        self.times.push(elapsed);
        if self.times.len() < REPORT_TICKS {
            return None;
        }
        let ghost all = self.times@;
        let mut sum: u128 = 0;
        let mut longest: u128 = self.times[0];
        let mut shortest: u128 = self.times[0];
        let mut i: usize = 0;
        assert(all.take(0) =~= Seq::<u128>::empty());
        while i < self.times.len()
            invariant
                i <= self.times.len(),
                self.times@ == all,
                all.len() == REPORT_TICKS,
                forall|k: int| 0 <= k < all.len() ==> #[trigger] all[k] <= LONGEST_TIME,
                sum == total(all.take(i as int)),
                sum <= i * LONGEST_TIME,
                all.contains(longest),
                all.contains(shortest),
                forall|k: int| 0 <= k < i ==> shortest <= #[trigger] all[k] <= longest,
            decreases self.times.len() - i,
        {
            let time = self.times[i];
            assert(all.take(i + 1).drop_last() =~= all.take(i as int));
            assert(all[i as int] == time);
            sum = sum + time;
            if time > longest {
                longest = time;
            }
            if time < shortest {
                shortest = time;
            }
            i = i + 1;
        }
        assert(all.take(i as int) =~= all);
        self.times.clear();
        Some(SpeedReport { average: sum / REPORT_TICKS as u128, longest, shortest })
    }
}

} // verus!
