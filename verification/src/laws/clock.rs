//! How the clock is corrected, round after round, and what is reported of the speed.
use vstd::prelude::*;

use crate::clock::ClockSync;
use crate::clock::SpeedMeter;
use crate::clock::SpeedReport;

verus! {

/// The clock after a run of messages, each of them counted and then read. A message is when it was
/// received and when it was made.
pub open spec fn clock_run(clock: ClockSync, messages: Seq<(i64, i64)>) -> ClockSync
    decreases messages.len(),
{
    if messages.len() == 0 {
        clock
    } else {
        let (received, made) = messages.last();
        clock_run(clock, messages.drop_last()).counted().observed(received, made)
    }
}

/// How late a message seems by the clocks as they are.
pub open spec fn raw_latency(message: (i64, i64)) -> int {
    message.0 - message.1
}

/// Within a round the offset stays, the messages are counted, and the least latency is kept.
proof fn lemma_within_a_round(clock: ClockSync, messages: Seq<(i64, i64)>)
    requires
        clock.messages == 0,
        clock.min_raw_latency is None,
        messages.len() < clock.round_length,
    ensures
        ({
            let after = clock_run(clock, messages);
            &&& after.offset == clock.offset
            &&& after.messages == messages.len()
            &&& after.floor == clock.floor
            &&& after.round_length == clock.round_length
            &&& match after.min_raw_latency {
                None => messages.len() == 0,
                Some(l) => {
                    &&& exists|i: int|
                        0 <= i < messages.len() && raw_latency(#[trigger] messages[i]) == l
                    &&& forall|i: int|
                        0 <= i < messages.len() ==> raw_latency(#[trigger] messages[i]) >= l
                },
            }
        }),
    decreases messages.len(),
{
    if messages.len() > 0 {
        let front = messages.drop_last();
        let end = messages.len() - 1;
        lemma_within_a_round(clock, front);
        let before = clock_run(clock, front);
        let (received, made) = messages.last();
        assert(messages[end] == (received, made));
        let l = crate::clock::least(before.min_raw_latency, received - made);
        if front.len() > 0 {
            let i = choose|i: int|
                0 <= i < front.len() && raw_latency(#[trigger] front[i])
                    == before.min_raw_latency->0;
            assert(messages[i] == front[i]);
        }
        if l == raw_latency(messages[end]) {
        } else {
            let i = choose|i: int|
                0 <= i < front.len() && raw_latency(#[trigger] front[i])
                    == before.min_raw_latency->0;
            assert(raw_latency(messages[i]) == l);
        }
        assert forall|i: int| 0 <= i < messages.len() implies raw_latency(#[trigger] messages[i])
            >= l by {
            if i < end {
                assert(front[i] == messages[i]);
            }
        }
    }
}

/// A round ends with exactly as many messages as it has, whatever the offset was before, and the
/// next one begins at once. The fastest message of the round then has the latency of the network
/// floor, and none of the round has less. Until then the offset stays as it was.
pub proof fn law_every_round_corrects_the_clock(clock: ClockSync, messages: Seq<(i64, i64)>)
    requires
        clock.messages == 0,
        clock.min_raw_latency is None,
        0 < messages.len() <= clock.round_length,
    ensures
        ({
            let after = clock_run(clock, messages);
            &&& after.floor == clock.floor
            &&& after.round_length == clock.round_length
            &&& messages.len() < clock.round_length ==> after.offset == clock.offset
            &&& messages.len() == clock.round_length ==> {
                &&& after.messages == 0
                &&& after.min_raw_latency is None
                &&& exists|i: int|
                    0 <= i < messages.len() && raw_latency(#[trigger] messages[i]) + after.offset
                        == clock.floor
                &&& forall|i: int|
                    0 <= i < messages.len() ==> raw_latency(#[trigger] messages[i]) + after.offset
                        >= clock.floor
            }
        }),
{
    if messages.len() < clock.round_length {
        lemma_within_a_round(clock, messages);
    } else {
        let front = messages.drop_last();
        let end = messages.len() - 1;
        lemma_within_a_round(clock, front);
        let before = clock_run(clock, front);
        let after = clock_run(clock, messages);
        let (received, made) = messages.last();
        assert(messages[end] == (received, made));
        let l = crate::clock::least(before.min_raw_latency, received - made);
        assert(after.offset == clock.floor - l);
        if l == raw_latency(messages[end]) {
            assert(raw_latency(messages[end]) + after.offset == clock.floor);
        } else {
            let i = choose|i: int|
                0 <= i < front.len() && raw_latency(#[trigger] front[i])
                    == before.min_raw_latency->0;
            assert(messages[i] == front[i]);
            assert(raw_latency(messages[i]) + after.offset == clock.floor);
        }
        assert forall|i: int| 0 <= i < messages.len() implies raw_latency(#[trigger] messages[i])
            + after.offset >= clock.floor by {
            if i < end {
                assert(front[i] == messages[i]);
            }
        }
    }
}

/// A message that cannot be read counts for its round all the same: whatever was counted, the
/// message at hand ends the round exactly where at least as many came as the round has. Counting
/// adds one and changes nothing else.
pub proof fn law_every_message_counts(clock: ClockSync, received: i64, made: i64)
    ensures
        clock.round_over() <==> clock.messages >= clock.round_length,
        clock.messages < i64::MAX ==> clock.counted().messages == clock.messages + 1,
        clock.messages == i64::MAX ==> clock.counted().messages == i64::MAX,
        clock.counted().offset == clock.offset,
        clock.counted().min_raw_latency == clock.min_raw_latency,
        clock.counted().floor == clock.floor,
        clock.counted().round_length == clock.round_length,
        clock.messages < clock.round_length ==> {
            let after = clock.observed(received, made);
            &&& after.offset == clock.offset
            &&& after.messages == clock.messages
            &&& after.min_raw_latency is Some
            &&& after.min_raw_latency->0 <= received - made
            &&& clock.min_raw_latency matches Some(l) ==> after.min_raw_latency->0 <= l
            &&& after.min_raw_latency->0 == received - made || after.min_raw_latency
                == clock.min_raw_latency
        },
        clock.messages >= clock.round_length ==> {
            let after = clock.observed(received, made);
            &&& after.messages == 0
            &&& after.min_raw_latency is None
            &&& clock.well_formed() ==> {
                &&& received - made + after.offset >= clock.floor
                &&& clock.min_raw_latency matches Some(l) ==> l + after.offset >= clock.floor
                &&& received - made + after.offset == clock.floor || (
                clock.min_raw_latency matches Some(l) && l + after.offset == clock.floor)
            }
        },
{
}

/// A clock is in order wherever its numbers come from readings of 64 bits.
pub proof fn law_clock_takes_every_reading(clock: ClockSync, received: i64, made: i64, floor: i64)
    ensures
        clock.well_formed() <==> {
            &&& -0x4_0000_0000_0000_0000 <= clock.offset <= 0x4_0000_0000_0000_0000
            &&& clock.min_raw_latency is Some ==> -0xffff_ffff_ffff_ffff
                <= clock.min_raw_latency->0 <= 0xffff_ffff_ffff_ffff
        },
        clock.min_raw_latency matches Some(l) && l == received - made && clock.offset == floor - l
            ==> clock.well_formed(),
{
}

/// The sum of some times is put together from the sums of its parts.
pub proof fn law_times_add_up(first: Seq<u128>, time: u128, second: Seq<u128>)
    ensures
        crate::clock::total(Seq::empty()) == 0,
        crate::clock::total(seq![time]) == time,
        crate::clock::total(first + second) == crate::clock::total(first) + crate::clock::total(
            second,
        ),
    decreases second.len(),
{
    let one = seq![time];
    assert(one.drop_last() =~= Seq::<u128>::empty());
    assert(one.last() == time);
    reveal_with_fuel(crate::clock::total, 2);
    if second.len() == 0 {
        assert(first + second =~= first);
    } else {
        law_times_add_up(first, time, second.drop_last());
        assert((first + second).drop_last() =~= first + second.drop_last());
        assert((first + second).last() == second.last());
    }
}

/// A report gives the whole part of the mean of a thousand times, and the longest and the shortest
/// of them.
pub proof fn law_report_sums_up_a_thousand_times(report: SpeedReport, times: Seq<u128>, i: int)
    requires
        report.sums_up(times),
    ensures
        report.average * 1000 <= crate::clock::total(times) < (report.average + 1) * 1000,
        exists|k: int| 0 <= k < times.len() && #[trigger] times[k] == report.longest,
        exists|k: int| 0 <= k < times.len() && #[trigger] times[k] == report.shortest,
        0 <= i < times.len() ==> report.shortest <= times[i] <= report.longest,
{
}

/// A meter is in order wherever fewer than a thousand times wait, each no longer than a clock can
/// measure: 64 bits of seconds and a thousand million nanoseconds in each.
pub proof fn law_meter_takes_every_time(meter: SpeedMeter)
    ensures
        meter.well_formed() <==> meter.times@.len() < 1000 && forall|i: int|
            0 <= i < meter.times@.len() ==> #[trigger] meter.times@[i] < 0x1_0000_0000_0000_0000
                * 1_000_000_000,
{
}

} // verus!
