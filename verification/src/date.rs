//! Calendar dates as plain values.
//!
//! The engine only stores and compares dates; it never computes with the
//! calendar. Holding the year, month and day as plain integers lets every
//! contract speak about dates directly.

use vstd::prelude::*;

verus! {

/// A calendar date, held as plain integers.
#[derive(PartialEq, Eq, Structural, Clone, Copy, Debug)]
pub struct Date {
    pub year: i32,
    pub month: u8,
    pub day: u8,
}

impl Date {
    /// Builds a date from its three components.
    pub fn new(year: i32, month: u8, day: u8) -> (d: Date)
        ensures
            d == (Date { year, month, day }),
    {
        Date { year, month, day }
    }
}

} // verus!
