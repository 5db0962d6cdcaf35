//! Calendar dates: their order, the number of each day, and the folder each is written as.

use vstd::prelude::*;

use crate::text;

verus! {

/// A day of the proleptic Gregorian calendar.
#[derive(Debug, Clone, Copy, PartialEq, Eq, Structural)]
pub struct Date {
    pub year: u16,
    pub month: u8,
    pub day: u8,
}

/// Whether February has 29 days in `year`.
pub open spec fn leap(year: int) -> bool {
    year % 4 == 0 && (year % 100 != 0 || year % 400 == 0)
}

/// How many days `month` has in `year`.
pub open spec fn month_length(year: int, month: int) -> int {
    if month == 2 {
        if leap(year) {
            29
        } else {
            28
        }
    } else if month == 4 || month == 6 || month == 9 || month == 11 {
        30
    } else {
        31
    }
}

/// How many days of `year` lie before `month`.
pub open spec fn days_before_month(year: int, month: int) -> int
    decreases month,
{
    if month <= 1 {
        0
    } else {
        days_before_month(year, month - 1) + month_length(year, month - 1)
    }
}

/// How many days lie before `year`, counted from the first day of the year 1.
pub open spec fn days_before_year(year: int) -> int {
    365 * (year - 1) + (year - 1) / 4 - (year - 1) / 100 + (year - 1) / 400
}

impl Date {
    /// Whether the calendar has this day, in the years that four digits write.
    pub open spec fn valid(self) -> bool {
        &&& 1 <= self.year <= 9999
        &&& 1 <= self.month <= 12
        &&& 1 <= self.day <= month_length(self.year as int, self.month as int)
    }

    /// The number of this day, the first day of the year 1 being day 1.
    pub open spec fn day_number(self) -> int {
        days_before_year(self.year as int) + days_before_month(
            self.year as int,
            self.month as int,
        ) + self.day
    }

    /// The order of dates: by year, then month, then day.
    pub open spec fn earlier(self, other: Date) -> bool {
        self.year < other.year || (self.year == other.year && (self.month < other.month || (
        self.month == other.month && self.day < other.day)))
    }

    /// `YYYY-MM-DD`.
    pub open spec fn folder(self) -> Seq<char> {
        seq![
            text::digit_char(self.year as int / 1000 % 10),
            text::digit_char(self.year as int / 100 % 10),
            text::digit_char(self.year as int / 10 % 10),
            text::digit_char(self.year as int % 10),
            '-',
            text::digit_char(self.month as int / 10 % 10),
            text::digit_char(self.month as int % 10),
            '-',
            text::digit_char(self.day as int / 10 % 10),
            text::digit_char(self.day as int % 10),
        ]
    }

    /// `YYYY-MM-DD`.
    pub fn to_folder(&self) -> (r: String)
        ensures
            r@ == self.folder(),
    {
        let mut r: String = String::new();
        r.push(text::digit_of((self.year / 1000 % 10) as u8));
        r.push(text::digit_of((self.year / 100 % 10) as u8));
        r.push(text::digit_of((self.year / 10 % 10) as u8));
        r.push(text::digit_of((self.year % 10) as u8));
        r.push('-');
        r.push(text::digit_of(self.month / 10 % 10));
        r.push(text::digit_of(self.month % 10));
        r.push('-');
        r.push(text::digit_of(self.day / 10 % 10));
        r.push(text::digit_of(self.day % 10));
        assert(r@ =~= self.folder());
        r
    }
}

proof fn lemma_month_within_year(year: int, m: int, n: int)
    requires
        1 <= m < n <= 12,
    ensures
        days_before_month(year, m) + month_length(year, m) <= days_before_month(year, n),
    decreases n - m,
{
    if m + 1 < n {
        lemma_month_within_year(year, m + 1, n);
    }
}

proof fn lemma_year_length(year: int)
    ensures
        days_before_year(year + 1) == days_before_year(year) + days_before_month(year, 12) + 31,
{
    let extra: int = if leap(year) {
        1
    } else {
        0
    };
    assert(days_before_month(year, 12) == 334 + extra) by {
        reveal_with_fuel(days_before_month, 12);
    }
    assert(year / 4 == (year - 1) / 4 + if year % 4 == 0 {
        1int
    } else {
        0
    });
    assert(year / 100 == (year - 1) / 100 + if year % 100 == 0 {
        1int
    } else {
        0
    });
    assert(year / 400 == (year - 1) / 400 + if year % 400 == 0 {
        1int
    } else {
        0
    });
}

proof fn lemma_years_ordered(a: int, b: int)
    requires
        a <= b,
    ensures
        days_before_year(a) <= days_before_year(b),
    decreases b - a,
{
    if a < b {
        lemma_years_ordered(a, b - 1);
        lemma_year_length(b - 1);
        reveal_with_fuel(days_before_month, 12);
    }
}

/// An earlier date has the smaller number.
pub proof fn earlier_has_smaller_number(a: Date, b: Date)
    requires
        a.valid(),
        b.valid(),
    ensures
        a.earlier(b) <==> a.day_number() < b.day_number(),
        a == b <==> a.day_number() == b.day_number(),
{
    if a.earlier(b) {
        lemma_earlier(a, b);
    } else if b.earlier(a) {
        lemma_earlier(b, a);
    }
}

proof fn lemma_earlier(a: Date, b: Date)
    requires
        a.valid(),
        b.valid(),
        a.earlier(b),
    ensures
        a.day_number() < b.day_number(),
{
    let y = a.year as int;
    if a.year < b.year {
        lemma_years_ordered(y + 1, b.year as int);
        lemma_year_length(y);
        if a.month < 12 {
            lemma_month_within_year(y, a.month as int, 12);
        }
        lemma_month_start(b.year as int, b.month as int);
    } else if a.month < b.month {
        lemma_month_within_year(y, a.month as int, b.month as int);
    }
}

proof fn lemma_month_start(year: int, month: int)
    ensures
        days_before_month(year, month) >= 0,
    decreases month,
{
    if month > 1 {
        lemma_month_start(year, month - 1);
    }
}

/// Two runs of four digits, those of the smaller number first.
proof fn lemma_four_digits(m: int, n: int)
    requires
        0 <= m < n <= 9999,
    ensures
        ({
            ||| m / 1000 % 10 < n / 1000 % 10
            ||| m / 1000 % 10 == n / 1000 % 10 && m / 100 % 10 < n / 100 % 10
            ||| m / 1000 % 10 == n / 1000 % 10 && m / 100 % 10 == n / 100 % 10 && m / 10 % 10 < n
                / 10 % 10
            ||| m / 1000 % 10 == n / 1000 % 10 && m / 100 % 10 == n / 100 % 10 && m / 10 % 10 == n
                / 10 % 10 && m % 10 < n % 10
        }),
{
    lemma_places(m);
    lemma_places(n);
}

proof fn lemma_places(n: int)
    requires
        0 <= n <= 9999,
    ensures
        n == 1000 * (n / 1000 % 10) + 100 * (n / 100 % 10) + 10 * (n / 10 % 10) + n % 10,
{
    let tens = n / 10;
    let hundreds = n / 100;
    let thousands = n / 1000;
    assert(n == 10 * tens + n % 10);
    assert(tens == 10 * hundreds + tens % 10);
    assert(hundreds == 10 * thousands + hundreds % 10);
    assert(thousands % 10 == thousands);
}

proof fn lemma_first_difference(x: Seq<char>, y: Seq<char>, i: int)
    requires
        0 <= i < x.len(),
        i < y.len(),
        forall|j: int| 0 <= j < i ==> x[j] == y[j],
        x[i] < y[i],
    ensures
        text::before(x, y),
{
    assert(x.take(i) =~= y.take(i));
    text::lemma_before_skip(x, y, i);
    assert(x.skip(i)[0] == x[i]);
    assert(y.skip(i)[0] == y[i]);
}

/// The folder of an earlier date stands before that of a later one.
pub proof fn earlier_folder_stands_before(a: Date, b: Date)
    requires
        a.valid(),
        b.valid(),
        a.earlier(b),
    ensures
        text::before(a.folder(), b.folder()),
{
    let x = a.folder();
    let y = b.folder();
    if a.year < b.year {
        lemma_four_digits(a.year as int, b.year as int);
        let i: int = if x[0] != y[0] {
            0
        } else if x[1] != y[1] {
            1
        } else if x[2] != y[2] {
            2
        } else {
            3
        };
        lemma_first_difference(x, y, i);
    } else if a.month < b.month {
        lemma_four_digits(a.month as int, b.month as int);
        lemma_first_difference(
            x,
            y,
            if x[5] != y[5] {
                5
            } else {
                6
            },
        );
    } else {
        lemma_four_digits(a.day as int, b.day as int);
        lemma_first_difference(
            x,
            y,
            if x[8] != y[8] {
                8
            } else {
                9
            },
        );
    }
}

/// The date of the day with this number.
pub open spec fn date_of(number: int) -> Date {
    choose|d: Date| d.valid() && d.day_number() == number
}

/// A date with a number is the date of that number.
pub proof fn lemma_date_of(d: Date)
    requires
        d.valid(),
    ensures
        date_of(d.day_number()) == d,
{
    let e = date_of(d.day_number());
    assert(d.valid() && d.day_number() == d.day_number());
    assert(e.valid() && e.day_number() == d.day_number());
    earlier_has_smaller_number(d, e);
}

/// Every day from 1970 on to the end of the year 9999 has a date.
pub proof fn date_exists(number: int)
    requires
        719_163 <= number <= 3_652_059,
    ensures
        date_of(number).valid(),
        date_of(number).day_number() == number,
{
    let y = lemma_year_of(number, 1970);
    lemma_year_length(y);
    let m = lemma_month_of(y, number - days_before_year(y), 1);
    let d = Date {
        year: y as u16,
        month: m as u8,
        day: (number - days_before_year(y) - days_before_month(y, m)) as u8,
    };
    assert(d.valid() && d.day_number() == number);
}

proof fn lemma_year_of(number: int, from: int) -> (y: int)
    requires
        1970 <= from <= 9999,
        days_before_year(from) < number <= 3_652_059,
    ensures
        from <= y <= 9999,
        days_before_year(y) < number <= days_before_year(y + 1),
    decreases 9999 - from,
{
    if number <= days_before_year(from + 1) {
        from
    } else {
        lemma_year_of(number, from + 1)
    }
}

proof fn lemma_month_of(year: int, day: int, from: int) -> (m: int)
    requires
        1 <= from <= 12,
        days_before_month(year, from) < day <= days_before_month(year, 12) + 31,
    ensures
        from <= m <= 12,
        1 <= day - days_before_month(year, m) <= month_length(year, m),
    decreases 12 - from,
{
    if from == 12 || day <= days_before_month(year, from + 1) {
        from
    } else {
        lemma_month_of(year, day, from + 1)
    }
}

/// A year is a day longer every fourth, but not every hundredth, and again every four hundredth;
/// and the months of a year are all of its days.
pub proof fn a_year_is_its_months(year: int)
    requires
        1 <= year,
    ensures
        days_before_year(year + 1) - days_before_year(year) == if year % 400 == 0 || (year % 4 == 0
            && year % 100 != 0) {
            366int
        } else {
            365
        },
        days_before_month(year, 12) + month_length(year, 12) == days_before_year(year + 1)
            - days_before_year(year),
        month_length(year, 2) == 29 <==> year % 400 == 0 || (year % 4 == 0 && year % 100 != 0),
{
    reveal_with_fuel(days_before_month, 13);
}

/// A folder is named by its date: the year in four digits, the month in two and the day in two,
/// with dashes between them.
pub proof fn a_folder_is_its_date(d: Date)
    requires
        d.valid(),
    ensures
        d.folder().len() == 10,
        d.folder()[4] == '-' && d.folder()[7] == '-',
        text::digits_value(d.folder().subrange(0, 4)) == Some(d.year as int),
        text::digits_value(d.folder().subrange(5, 7)) == Some(d.month as int),
        text::digits_value(d.folder().subrange(8, 10)) == Some(d.day as int),
{
    let f = d.folder();
    lemma_two_digits(f.subrange(5, 7), d.month as int);
    lemma_two_digits(f.subrange(8, 10), d.day as int);
    let year = f.subrange(0, 4);
    let y = d.year as int;
    lemma_two_digits(year.take(2), y / 100);
    reveal_with_fuel(text::digits_value, 3);
    assert(year.drop_last().drop_last() =~= year.take(2));
    assert(year.drop_last().last() == text::digit_char(y / 10 % 10));
    assert(year.last() == text::digit_char(y % 10));
    assert(text::digits_value(year.drop_last()) == Some(10 * (y / 100) + y / 10 % 10));
    assert(text::digits_value(year) == Some(10 * (10 * (y / 100) + y / 10 % 10) + y % 10));
}

proof fn lemma_two_digits(s: Seq<char>, n: int)
    requires
        s.len() == 2,
        0 <= n < 100,
        s[0] == text::digit_char(n / 10 % 10),
        s[1] == text::digit_char(n % 10),
    ensures
        text::digits_value(s) == Some(n),
{
    reveal_with_fuel(text::digits_value, 3);
    assert(s.drop_last().drop_last() =~= Seq::<char>::empty());
    assert(s.drop_last().last() == s[0]);
    assert(text::digits_value(s.drop_last()) == Some(n / 10));
}

}
