//! The point in time a firmware build is stamped with.
//!
//! Both textual encodings (request header and on-disk build marker) decode to
//! this one semantic value: a calendar instant with second resolution.
//! Timestamps are totally ordered by `instant`, the number of seconds since
//! the start of year 0 of the proleptic Gregorian calendar; comparing two
//! instants orders the timestamps exactly as comparing seconds since any
//! other fixed epoch would.

use vstd::prelude::*;

verus! {

/// A calendar instant with second resolution. Field ranges are constrained
/// by [`FirmwareTimestamp::wf`]; every timestamp the codec hands out is
/// well formed.
#[derive(Clone, Copy, PartialEq, Eq, Structural, Debug)]
pub struct FirmwareTimestamp {
    pub year: u32,
    pub month: u32,
    pub day: u32,
    pub hour: u32,
    pub minute: u32,
    pub second: u32,
}

/// Gregorian leap-year rule.
pub open spec fn is_leap_year(y: int) -> bool {
    (y % 4 == 0 && y % 100 != 0) || y % 400 == 0
}

/// Number of days in month `m` (1-12) of year `y`.
pub open spec fn days_in_month(y: int, m: int) -> int {
    if m == 2 {
        if is_leap_year(y) {
            29
        } else {
            28
        }
    } else if m == 4 || m == 6 || m == 9 || m == 11 {
        30
    } else {
        31
    }
}

/// Number of days in all years before year `y`, counting from year 0.
pub open spec fn days_before_year(y: int) -> int
    decreases y,
{
    if y <= 0 {
        0
    } else {
        days_before_year(y - 1) + if is_leap_year(y - 1) {
            366int
        } else {
            365int
        }
    }
}

/// Number of days in the months of year `y` that precede month `m`.
pub open spec fn days_before_month(y: int, m: int) -> int
    decreases m,
{
    if m <= 1 {
        0
    } else {
        days_before_month(y, m - 1) + days_in_month(y, m - 1)
    }
}

impl FirmwareTimestamp {
    /// Field ranges of a valid calendar instant. The year bound comes from
    /// the four-digit year field of both textual encodings.
    pub open spec fn wf(self) -> bool {
        &&& self.year <= 9999
        &&& 1 <= self.month <= 12
        &&& 1 <= self.day <= days_in_month(self.year as int, self.month as int)
        &&& self.hour <= 23
        &&& self.minute <= 59
        &&& self.second <= 59
    }

    /// Days from the start of year 0 to the start of this timestamp's day.
    pub open spec fn epoch_days(self) -> int {
        days_before_year(self.year as int) + days_before_month(
            self.year as int,
            self.month as int,
        ) + (self.day - 1)
    }

    /// Seconds from the start of year 0 to this instant: the timestamp's
    /// underlying point in time. The total order on timestamps is the order
    /// of their instants.
    pub open spec fn instant(self) -> int {
        ((self.epoch_days() * 24 + self.hour) * 60 + self.minute) * 60 + self.second
    }
}

proof fn lemma_days_before_year_bound(y: int)
    requires
        0 <= y,
    ensures
        days_before_year(y) <= 366 * y,
    decreases y,
{
    if y > 0 {
        lemma_days_before_year_bound(y - 1);
    }
}

fn exec_is_leap_year(y: u32) -> (r: bool)
    ensures
        r == is_leap_year(y as int),
{
    (y % 4 == 0 && y % 100 != 0) || y % 400 == 0
}

/// Executable form of [`days_in_month`].
pub fn exec_days_in_month(y: u32, m: u32) -> (r: u32)
    requires
        1 <= m <= 12,
    ensures
        r == days_in_month(y as int, m as int),
{
    if m == 2 {
        if exec_is_leap_year(y) {
            29
        } else {
            28
        }
    } else if m == 4 || m == 6 || m == 9 || m == 11 {
        30
    } else {
        31
    }
}

fn exec_days_before_year(y: u32) -> (r: u64)
    ensures
        r == days_before_year(y as int),
        r <= 366 * (y as u64),
{
    let mut d: u64 = 0;
    let mut yr: u32 = 0;
    while yr < y
        invariant
            yr <= y,
            d == days_before_year(yr as int),
            d <= 366 * (yr as u64),
        decreases y - yr,
    {
        if exec_is_leap_year(yr) {
            d = d + 366;
        } else {
            d = d + 365;
        }
        yr = yr + 1;
    }
    d
}

fn exec_days_before_month(y: u32, m: u32) -> (r: u32)
    requires
        1 <= m <= 12,
    ensures
        r == days_before_month(y as int, m as int),
        r <= 372,
{
    let mut d: u32 = 0;
    let mut mo: u32 = 1;
    while mo < m
        invariant
            1 <= mo <= m,
            d == days_before_month(y as int, mo as int),
            d <= 31 * (mo as u32),
        decreases m - mo,
    {
        d = d + exec_days_in_month(y, mo);
        mo = mo + 1;
    }
    d
}

impl FirmwareTimestamp {
    /// The instant as a machine integer; fits easily in a `u64` because the
    /// year is at most four digits.
    pub fn total_seconds(&self) -> (r: u64)
        requires
            self.wf(),
        ensures
            r == self.instant(),
    {
        proof {
            lemma_days_before_year_bound(self.year as int);
        }
        let days: u64 = exec_days_before_year(self.year) + exec_days_before_month(
            self.year,
            self.month,
        ) as u64 + (self.day - 1) as u64;
        ((days * 24 + self.hour as u64) * 60 + self.minute as u64) * 60 + self.second as u64
    }

    /// Whether this timestamp strictly precedes `other` as a point in time.
    pub fn precedes(&self, other: &FirmwareTimestamp) -> (r: bool)
        requires
            self.wf(),
            other.wf(),
        ensures
            r == (self.instant() < other.instant()),
    {
        self.total_seconds() < other.total_seconds()
    }
}

/// The order on timestamps is a strict total order: transitive,
/// antisymmetric (two timestamps never strictly precede each other), and
/// total (any two instants are ordered one way, the other, or equal).
pub proof fn lemma_instant_order_total(a: FirmwareTimestamp, b: FirmwareTimestamp, c: FirmwareTimestamp)
    ensures
        a.instant() < b.instant() && b.instant() < c.instant() ==> a.instant() < c.instant(),
        !(a.instant() < b.instant() && b.instant() < a.instant()),
        a.instant() < b.instant() || b.instant() < a.instant() || a.instant() == b.instant(),
{
}

} // verus!
