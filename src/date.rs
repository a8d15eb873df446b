use vstd::prelude::*;

verus! {

/// A calendar date, held as the number of days since January 1 of year 1
/// in the proleptic Gregorian calendar (that day is day 1).
#[derive(Clone, Copy, Debug)]
pub struct CalendarDate {
    pub days_from_ce: i32,
}

impl CalendarDate {
    /// The day number.
    pub open spec fn day(self) -> int {
        self.days_from_ce as int
    }

    /// The date with day number `days_from_ce`.
    pub fn from_days_from_ce(days_from_ce: i32) -> (r: CalendarDate)
        ensures
            r.day() == days_from_ce,
    {
        CalendarDate { days_from_ce }
    }

    /// Today's date on the machine's local clock.
    pub fn today() -> (r: CalendarDate) {
        CalendarDate { days_from_ce: local_today_days_from_ce() }
    }

    /// Whether `self` falls strictly before `other`.
    pub fn is_before(&self, other: &CalendarDate) -> (r: bool)
        ensures
            r == (self.day() < other.day()),
    {
        self.days_from_ce < other.days_from_ce
    }
}

/// Relies on chrono's `Local::now` for the current local date, read as a day
/// number through `Datelike::num_days_from_ce`. The value depends on the clock,
/// so nothing is stated of it.
#[verifier::external_body]
fn local_today_days_from_ce() -> i32 {
    chrono::Datelike::num_days_from_ce(&chrono::Local::now().date_naive())
}

} // verus!
