//! An unsigned fixed-point reader and the borrowed message shapes that go with it. The order
//! book has its own reader; these stay for callers that hold the message text.
use vstd::prelude::*;

use crate::fixed_point::read_fixed_point;

verus! {

/// Reads a decimal text as an unsigned fixed-point number with eight implied decimals, without
/// going through a float. Decimals past the eighth are cut off, missing ones are zero.
pub fn fast_parse_fixed_point(val: &str) -> (r: u64)
    requires
        crate::fixed_point::fixed_point(val@) <= u64::MAX,
    ensures
        r == crate::fixed_point::fixed_point(val@),
{
    read_fixed_point(val).unwrap()
}

/// A depth update that borrows from the message it was read from.
#[derive(Debug, Clone)]
pub struct BinanceDepthUpdate<'a> {
    pub event_type: &'a str,
    pub event_time: i64,
    pub transaction_time: i64,
    pub symbol: &'a str,
    pub first_update_id: i64,
    pub final_update_id: i64,
    pub prev_final_update_id: i64,
    /// Each level is a price and a quantity.
    pub bids: Vec<[&'a str; 2]>,
    pub asks: Vec<[&'a str; 2]>,
}

/// A depth snapshot with an unsigned update id.
#[derive(Debug, Clone)]
pub struct BinanceSnapshot {
    pub last_update_id: u64,
    pub bids: Vec<Vec<String>>,
    pub asks: Vec<Vec<String>>,
}

} // verus!
