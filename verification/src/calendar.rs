//! Calendar dates and the identifier of a day's buffer.

use crate::number::{decimal, lemma_decimal_reads_back, render_i32, render_u32, signed_decimal};
use crate::text::{all_ascii, ascii_string, encodings};
use vstd::prelude::*;

verus! {

/// The earliest year a buffer can be dated to.
pub const MIN_YEAR: i32 = -262143;

/// The latest year a buffer can be dated to.
pub const MAX_YEAR: i32 = 262142;

/// Leap years of the proleptic Gregorian calendar.
pub open spec fn is_leap_year(year: int) -> bool {
    year % 4 == 0 && (year % 100 != 0 || year % 400 == 0)
}

/// Number of days of `month` (1 to 12) in `year`.
pub open spec fn days_in_month(year: int, month: int) -> int {
    if month == 2 {
        if is_leap_year(year) {
            29
        } else {
            28
        }
    } else if month == 4 || month == 6 || month == 9 || month == 11 {
        30
    } else {
        31
    }
}

/// A calendar date as plain numbers.
pub struct Date {
    pub year: int,
    pub month: int,
    pub day: int,
}

impl Date {
    /// The date exists in the calendar and its year is representable.
    pub open spec fn valid(self) -> bool {
        &&& MIN_YEAR <= self.year <= MAX_YEAR
        &&& 1 <= self.month <= 12
        &&& 1 <= self.day <= days_in_month(self.year, self.month)
    }

    /// The first representable date, which has no predecessor.
    pub open spec fn is_first(self) -> bool {
        self.year == MIN_YEAR && self.month == 1 && self.day == 1
    }

    /// The calendar day before this one.
    pub open spec fn pred(self) -> Date {
        if self.day > 1 {
            Date { year: self.year, month: self.month, day: self.day - 1 }
        } else if self.month > 1 {
            Date {
                year: self.year,
                month: self.month - 1,
                day: days_in_month(self.year, self.month - 1),
            }
        } else {
            Date { year: self.year - 1, month: 12, day: 31 }
        }
    }

    /// The day before this one, where the calendar has one.
    pub open spec fn day_before(self) -> Option<Date> {
        if self.is_first() {
            None
        } else {
            Some(self.pred())
        }
    }

    /// The date `n` days before this one.
    pub open spec fn days_before(self, n: nat) -> Date
        decreases n,
    {
        if n == 0 {
            self
        } else {
            self.pred().days_before((n - 1) as nat)
        }
    }

    /// Chronological order.
    pub open spec fn before(self, other: Date) -> bool {
        self.year < other.year || (self.year == other.year && (self.month < other.month || (
        self.month == other.month && self.day < other.day)))
    }
}

/// The predecessor of a valid date other than the first is a valid, earlier date.
pub proof fn lemma_pred_valid(d: Date)
    requires
        d.valid(),
        !d.is_first(),
    ensures
        d.pred().valid(),
        d.pred().before(d),
{
}

/// The path of a day's buffer below the root of the store: the year, the
/// month and the day, nested in that order, each in unpadded decimal.
pub open spec fn path_of(d: Date) -> Seq<Seq<u8>> {
    seq![signed_decimal(d.year), decimal(d.month as nat), decimal(d.day as nat)]
}

/// Whether chrono accepts the three numbers as a calendar date.
///
/// Calls `chrono::NaiveDate::from_ymd_opt`, which returns a date exactly when
/// the year lies in chrono's range and the day exists in that month.
#[verifier::external_body]
fn chrono_is_date(year: i32, month: u32, day: u32) -> (ok: bool)
    ensures
        ok == (Date { year: year as int, month: month as int, day: day as int }).valid(),
{
    chrono::NaiveDate::from_ymd_opt(year, month, day).is_some()
}

/// The day before a date, by chrono.
///
/// Calls `chrono::NaiveDate::pred_opt`, which returns the previous calendar
/// date, and `None` only for the first representable date.
#[verifier::external_body]
fn chrono_pred(year: i32, month: u32, day: u32) -> (prev: Option<(i32, u32, u32)>)
    requires
        (Date { year: year as int, month: month as int, day: day as int }).valid(),
    ensures
        prev is None <==> (Date {
            year: year as int,
            month: month as int,
            day: day as int,
        }).is_first(),
        prev matches Some(p) ==> (Date { year: p.0 as int, month: p.1 as int, day: p.2 as int })
            == (Date { year: year as int, month: month as int, day: day as int }).pred(),
{
    let date = chrono::NaiveDate::from_ymd_opt(year, month, day).unwrap();
    date.pred_opt().map(
        |p| (chrono::Datelike::year(&p), chrono::Datelike::month(&p), chrono::Datelike::day(&p)),
    )
}

/// Today's date on the local clock.
///
/// Calls `chrono::Local::now` and reads the calendar date off it. The result
/// depends on the clock and the time zone; only its validity is claimed.
/// Where the system clock stands before 1970, chrono panics and nothing is
/// returned.
#[verifier::external_body]
fn chrono_today() -> (today: (i32, u32, u32))
    ensures
        (Date { year: today.0 as int, month: today.1 as int, day: today.2 as int }).valid(),
{
    let date = chrono::Local::now().date_naive();
    (chrono::Datelike::year(&date), chrono::Datelike::month(&date), chrono::Datelike::day(&date))
}

/// Identifier of one day's buffer: a calendar date.
#[derive(Copy, Clone, Debug, PartialEq, Eq, Structural, PartialOrd, Ord, Hash)]
pub struct BufferId {
    year: i32,
    month: u32,
    day: u32,
}

impl View for BufferId {
    type V = Date;

    closed spec fn view(&self) -> Date {
        Date { year: self.year as int, month: self.month as int, day: self.day as int }
    }
}

impl Default for BufferId {
    /// The identifier of the current local day.
    fn default() -> (id: Self)
        ensures
            id@.valid(),
    {
        BufferId::today()
    }
}

impl BufferId {
    /// Every identifier names a date that exists.
    #[verifier::type_invariant]
    pub open spec fn well_formed(self) -> bool {
        self@.valid()
    }

    /// Whether two identifiers name the same day.
    pub fn same_day(&self, other: &BufferId) -> (same: bool)
        ensures
            same == (self@ == other@),
    {
        self.year == other.year && self.month == other.month && self.day == other.day
    }

    /// The identifier for a date, if the date exists.
    pub fn new(year: i32, month: u32, day: u32) -> (id: Option<BufferId>)
        ensures
            id is Some <==> (Date {
                year: year as int,
                month: month as int,
                day: day as int,
            }).valid(),
            id matches Some(b) ==> b@ == (Date {
                year: year as int,
                month: month as int,
                day: day as int,
            }),
    {
        if chrono_is_date(year, month, day) {
            Some(BufferId { year, month, day })
        } else {
            None
        }
    }

    /// The identifier of the current local day.
    pub fn today() -> (id: BufferId)
        ensures
            id@.valid(),
    {
        let t = chrono_today();
        BufferId { year: t.0, month: t.1, day: t.2 }
    }

    /// The identifier of the day before today.
    ///
    /// Whatever day the clock shows, the result is the day before that day:
    /// `None` only if today is the first representable date.
    pub fn yesterday() -> (id: Option<BufferId>)
        ensures
            id matches Some(y) ==> y@.valid(),
            exists|today: Date|
                today.valid() && #[trigger] today.day_before() == (match id {
                    Some(y) => Some(y@),
                    None => None,
                }),
    {
        let today = BufferId::today();
        let id = today.checked_prev();
        assert(today@.valid() && today@.day_before() == (match id {
            Some(y) => Some(y@),
            None => None,
        }));
        id
    }

    /// The identifier of the day before, or `None` for the first
    /// representable date, which has none.
    pub fn checked_prev(&self) -> (id: Option<BufferId>)
        ensures
            id is None <==> self@.is_first(),
            id matches Some(p) ==> p@ == self@.pred(),
    {
        proof {
            use_type_invariant(self);
        }
        match chrono_pred(self.year, self.month, self.day) {
            Some(p) => {
                proof {
                    lemma_pred_valid(self@);
                }
                Some(BufferId { year: p.0, month: p.1, day: p.2 })
            },
            None => None,
        }
    }

    /// The identifier of the day before.
    pub fn prev(&self) -> (id: BufferId)
        requires
            !self@.is_first(),
        ensures
            id@ == self@.pred(),
    {
        match self.checked_prev() {
            Some(p) => p,
            None => *self,
        }
    }

    /// Whether this day comes before `other`.
    pub fn is_before(&self, other: &BufferId) -> (earlier: bool)
        ensures
            earlier == self@.before(other@),
    {
        self.year < other.year || (self.year == other.year && (self.month < other.month || (
        self.month == other.month && self.day < other.day)))
    }

    /// The path of the buffer below the root of the store, segment by
    /// segment: year, month, day.
    pub fn filepath(&self) -> (path: Vec<String>)
        ensures
            encodings(path@) == path_of(self@),
    {
        proof {
            use_type_invariant(self);
            lemma_decimal_reads_back(self@.month as nat);
            lemma_decimal_reads_back(self@.day as nat);
            if self@.year < 0 {
                lemma_decimal_reads_back((-self@.year) as nat);
            } else {
                lemma_decimal_reads_back(self@.year as nat);
            }
        }
        let year = render_i32(self.year);
        let month = render_u32(self.month);
        let day = render_u32(self.day);
        assert(all_ascii(year@));
        assert(all_ascii(month@));
        assert(all_ascii(day@));
        let mut path: Vec<String> = Vec::new();
        path.push(ascii_string(year));
        path.push(ascii_string(month));
        path.push(ascii_string(day));
        assert(encodings(path@) =~= path_of(self@));
        path
    }

    /// The year of the day.
    pub fn year(&self) -> (y: i32)
        ensures
            y == self@.year,
    {
        self.year
    }

    /// The month of the day, from 1.
    pub fn month(&self) -> (m: u32)
        ensures
            m == self@.month,
    {
        self.month
    }

    /// The day of the month, from 1.
    pub fn day(&self) -> (d: u32)
        ensures
            d == self@.day,
    {
        self.day
    }
}

} // verus!
