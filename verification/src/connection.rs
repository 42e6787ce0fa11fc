//! Where the exchange is reached, and how often it is tried.
use vstd::prelude::*;
use vstd::string::StringExecFns;

use crate::text::join3;
use crate::text::to_lowercase;

verus! {

/// The address of a symbol's depth snapshot.
pub fn snapshot_url(symbol: &str) -> (r: String)
    ensures
        r@ == "https://fapi.binance.com/fapi/v1/depth?symbol="@ + symbol@ + "&limit=100"@,
{
    join3("https://fapi.binance.com/fapi/v1/depth?symbol=", symbol, "&limit=100")
}

/// The address of the exchange information.
pub fn exchange_info_url() -> (r: &'static str)
    ensures
        r@ == "https://fapi.binance.com/fapi/v1/exchangeInfo"@,
{
    "https://fapi.binance.com/fapi/v1/exchangeInfo"
}

/// The address of the depth stream with the given name.
pub fn stream_url_of(name: &str) -> (r: String)
    ensures
        r@ == "wss://fstream.binance.com/ws/"@ + name@ + "@depth@100ms"@,
{
    join3("wss://fstream.binance.com/ws/", name, "@depth@100ms")
}

/// The address of a symbol's depth stream, where the symbol stands in lower case.
pub fn stream_url(symbol: &str) -> (r: String)
    ensures
        r@ == "wss://fstream.binance.com/ws/"@ + crate::text::lowercase(symbol@)
            + "@depth@100ms"@,
{
    stream_url_of(to_lowercase(symbol).as_str())
}

/// Two to the power of `n`.
pub open spec fn doubled(n: nat) -> nat
    decreases n,
{
    if n == 0 {
        1
    } else {
        2 * doubled((n - 1) as nat)
    }
}

/// How often a stream may fail to connect in a row.
pub const MAX_RECONNECTS: u32 = 9;

/// What to do after a stream failed to connect.
#[derive(Debug, PartialEq, Eq, Structural, Clone, Copy)]
pub enum ReconnectStep {
    /// Try again after so many seconds.
    RetryAfter(u64),
    /// Give the stream up.
    GiveUp,
}

/// Counts how often a stream failed to connect in a row.
pub struct Reconnect {
    pub failures: u32,
}

impl Reconnect {
    /// No failure so far.
    pub fn new() -> (r: Reconnect)
        ensures
            r.failures == 0,
    {
        Reconnect { failures: 0 }
    }

    /// Forgets the failures, once the stream is connected.
    pub fn connected(&mut self)
        ensures
            final(self).failures == 0,
    {
        self.failures = 0;
    }

    /// Counts one more failure. The wait doubles with each, and is capped with their number.
    pub fn failed(&mut self) -> (r: ReconnectStep)
        ensures
            final(self).failures == if old(self).failures < u32::MAX {
                old(self).failures + 1
            } else {
                u32::MAX as int
            },
            r == if old(self).failures < MAX_RECONNECTS {
                ReconnectStep::RetryAfter(doubled((old(self).failures + 1) as nat) as u64)
            } else {
                ReconnectStep::GiveUp
            },
            old(self).failures < MAX_RECONNECTS ==> doubled((old(self).failures + 1) as nat)
                <= 512,
    {
        if self.failures < u32::MAX {
            self.failures = self.failures + 1;
        }
        if self.failures > MAX_RECONNECTS {
            return ReconnectStep::GiveUp;
        }
        let mut wait: u64 = 1;
        let mut i: u32 = 0;
        assert(doubled(9) == 512) by {
            reveal_with_fuel(doubled, 10);
        }
        proof {
            lemma_doubled_grows(self.failures as nat, 9);
        }
        while i < self.failures
            invariant
                i <= self.failures <= 9,
                wait == doubled(i as nat),
                doubled(self.failures as nat) <= 512,
            decreases self.failures - i,
        {
            proof {
                lemma_doubled_grows((i + 1) as nat, self.failures as nat);
            }
            wait = wait * 2;
            i = i + 1;
        }
        ReconnectStep::RetryAfter(wait)
    }
}

proof fn lemma_doubled_grows(low: nat, high: nat)
    requires
        low <= high,
    ensures
        doubled(low) <= doubled(high),
    decreases high,
{
    if low < high {
        lemma_doubled_grows(low, (high - 1) as nat);
    }
}

/// How often a snapshot is asked for in all.
pub const MAX_FETCHES: u32 = 5;

/// What is reported of a symbol whose snapshot was refused at every try.
pub fn exhausted_text(symbol: &str) -> (r: String)
    ensures
        r@ == symbol@ + " trying 5 times but still failed to get snapshots."@,
{
    let mut text = symbol.to_string();
    text.append(" trying 5 times but still failed to get snapshots.");
    text
}

/// What came of asking for a snapshot.
#[derive(Debug, PartialEq, Eq, Structural, Clone, Copy)]
pub enum FetchOutcome {
    /// A snapshot came and could be read.
    Delivered,
    /// An answer came that could not be read.
    Unreadable,
    /// The exchange refused, or could not be reached.
    Refused,
}

/// What to do next about a snapshot.
#[derive(Debug, PartialEq, Eq, Structural, Clone, Copy)]
pub enum FetchStep {
    /// Hand the snapshot on.
    Finish,
    /// Report that the answer could not be read.
    Fail,
    /// Ask again after so many seconds.
    RetryAfter(u64),
    /// Report that no snapshot could be had.
    Exhausted,
}

/// Counts how often a snapshot was refused.
pub struct SnapshotFetch {
    pub refusals: u32,
    /// The wait after the next refusal, in seconds.
    pub delay: u64,
}

impl SnapshotFetch {
    /// The wait has doubled with every refusal.
    pub open spec fn well_formed(&self) -> bool {
        self.refusals < MAX_FETCHES && self.delay == doubled(self.refusals as nat)
    }

    /// Nothing was refused yet.
    pub fn new() -> (r: SnapshotFetch)
        ensures
            r.well_formed(),
            r.refusals == 0,
    {
        SnapshotFetch { refusals: 0, delay: 1 }
    }

    /// Decides what to do after asking. A refusal is followed by another try after a wait that
    /// doubles, until the last try is used up.
    pub fn next(&mut self, outcome: FetchOutcome) -> (r: FetchStep)
        requires
            old(self).well_formed(),
        ensures
            final(self).well_formed(),
            r == match outcome {
                FetchOutcome::Delivered => FetchStep::Finish,
                FetchOutcome::Unreadable => FetchStep::Fail,
                FetchOutcome::Refused => if old(self).refusals + 1 < MAX_FETCHES {
                    FetchStep::RetryAfter(doubled(old(self).refusals as nat) as u64)
                } else {
                    FetchStep::Exhausted
                },
            },
            final(self).refusals == if r is RetryAfter {
                old(self).refusals + 1
            } else {
                old(self).refusals as int
            },
    {
        match outcome {
            FetchOutcome::Delivered => FetchStep::Finish,
            FetchOutcome::Unreadable => FetchStep::Fail,
            FetchOutcome::Refused => {
                if self.refusals + 1 < MAX_FETCHES {
                    let wait = self.delay;
                    proof {
                        lemma_doubled_grows(self.refusals as nat, 5);
                        assert(doubled(5) == 32) by {
                            reveal_with_fuel(doubled, 6);
                        }
                    }
                    self.refusals = self.refusals + 1;
                    self.delay = wait * 2;
                    FetchStep::RetryAfter(wait)
                } else {
                    FetchStep::Exhausted
                }
            },
        }
    }
}

} // verus!
