//! Calendar dates.
use crate::text::{char_text, fixed_digits, write_fixed_digits};
use crate::views::option_view;
use vstd::prelude::*;

verus! {

/// What a [`NaiveDate`] holds.
pub struct DateView {
    pub year: nat,
    pub month: nat,
    pub day: nat,
}

/// Whether the Gregorian calendar gives `year` a 29th of February.
pub open spec fn is_leap_year(year: nat) -> bool {
    year % 4 == 0 && (year % 100 != 0 || year % 400 == 0)
}

/// How many days a month has.
pub open spec fn days_in_month(year: nat, month: nat) -> nat {
    if month == 2 {
        if is_leap_year(year) {
            29
        } else {
            28
        }
    } else if month == 4 || month == 6 || month == 9 || month == 11 {
        30
    } else {
        31
    }
}

impl DateView {
    /// Whether this is a day of the calendar, in a year of at most four digits.
    pub open spec fn is_valid(self) -> bool {
        &&& self.year <= 9999
        &&& 1 <= self.month <= 12
        &&& 1 <= self.day <= days_in_month(self.year, self.month)
    }

    /// Whether this date comes before another one.
    pub open spec fn precedes(self, other: DateView) -> bool {
        if self.year != other.year {
            self.year < other.year
        } else if self.month != other.month {
            self.month < other.month
        } else {
            self.day < other.day
        }
    }

    /// The date as text: year, month and day with dashes between them.
    pub open spec fn text(self) -> Seq<char> {
        fixed_digits(self.year, 4) + seq!['-'] + fixed_digits(self.month, 2) + seq!['-']
            + fixed_digits(self.day, 2)
    }
}

/// A day of the calendar, in a year from 0 to 9999.
#[derive(Clone, Copy, Debug, PartialEq, Eq)]
pub struct NaiveDate {
    year: u16,
    month: u8,
    day: u8,
}

impl View for NaiveDate {
    type V = DateView;

    closed spec fn view(&self) -> DateView {
        DateView { year: self.year as nat, month: self.month as nat, day: self.day as nat }
    }
}

impl NaiveDate {
    #[verifier::type_invariant]
    closed spec fn on_calendar(self) -> bool {
        self@.is_valid()
    }

    /// The date with these parts, where there is such a day.
    pub fn new(year: u16, month: u8, day: u8) -> (date: Option<NaiveDate>)
        ensures
            option_view(date) == ({
                let parts = DateView { year: year as nat, month: month as nat, day: day as nat };
                if parts.is_valid() {
                    Some(parts)
                } else {
                    None
                }
            }),
    {
        let leap = year % 4 == 0 && (year % 100 != 0 || year % 400 == 0);
        let last: u8 = if month == 2 {
            if leap {
                29
            } else {
                28
            }
        } else if month == 4 || month == 6 || month == 9 || month == 11 {
            30
        } else {
            31
        };
        if year <= 9999 && 1 <= month && month <= 12 && 1 <= day && day <= last {
            Some(NaiveDate { year, month, day })
        } else {
            None
        }
    }

    /// The year.
    pub fn year(&self) -> (year: u16)
        ensures
            year == self@.year,
            year <= 9999,
    {
        proof {
            use_type_invariant(self);
        }
        self.year
    }

    /// The month, from 1 to 12.
    pub fn month(&self) -> (month: u8)
        ensures
            month == self@.month,
            1 <= month <= 12,
    {
        proof {
            use_type_invariant(self);
        }
        self.month
    }

    /// The day of the month, from 1 on.
    pub fn day(&self) -> (day: u8)
        ensures
            day == self@.day,
            1 <= day <= days_in_month(self@.year, self@.month),
    {
        proof {
            use_type_invariant(self);
        }
        self.day
    }

    /// Whether the date comes before another one.
    pub fn precedes(&self, other: &NaiveDate) -> (precedes: bool)
        ensures
            precedes == self@.precedes(other@),
    {
        if self.year != other.year {
            self.year < other.year
        } else if self.month != other.month {
            self.month < other.month
        } else {
            self.day < other.day
        }
    }

    /// The date as text.
    pub fn to_text(&self) -> (text: String)
        ensures
            text@ == self@.text(),
    {
        let dash = char_text('-');
        let mut text = write_fixed_digits(self.year as u128, 4);
        text.append(dash.as_str());
        text.append(write_fixed_digits(self.month as u128, 2).as_str());
        text.append(dash.as_str());
        text.append(write_fixed_digits(self.day as u128, 2).as_str());
        text
    }
}

} // verus!
