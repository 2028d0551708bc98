//! Log files: their names, the times in them, and which of them are kept.
use vstd::prelude::*;

use crate::text::{chars_of, decimal, is_before, stands_at};

verus! {

/// A point in time, by the calendar and the clock of universal time.
#[derive(Debug, Clone, Copy, PartialEq, Eq, Structural)]
pub struct Moment {
    pub year: u64,
    pub month: u64,
    pub day: u64,
    pub hour: u64,
    pub minute: u64,
    pub second: u64,
}

/// The year has a leap day.
pub open spec fn is_leap(year: int) -> bool {
    year % 4 == 0 && (year % 100 != 0 || year % 400 == 0)
}

/// The days of a year.
pub open spec fn year_days(year: int) -> int {
    if is_leap(year) {
        366
    } else {
        365
    }
}

/// The days of a month.
pub open spec fn month_days(year: int, month: int) -> int {
    if month == 2 {
        if is_leap(year) {
            29
        } else {
            28
        }
    } else if month == 4 || month == 6 || month == 9 || month == 11 {
        30
    } else {
        31
    }
}

/// The days from the start of 1970 to the start of `year`.
pub open spec fn days_before_year(year: int) -> int
    decreases year - 1970,
{
    if year <= 1970 {
        0
    } else {
        days_before_year(year - 1) + year_days(year - 1)
    }
}

/// The days from the start of `year` to the start of `month`.
pub open spec fn days_before_month(year: int, month: int) -> int
    decreases month,
{
    if month <= 1 {
        0
    } else {
        days_before_month(year, month - 1) + month_days(year, month - 1)
    }
}

impl Moment {
    /// The moment is one of the calendar.
    pub open spec fn valid(&self) -> bool {
        &&& self.year >= 1970
        &&& 1 <= self.month <= 12
        &&& 1 <= self.day <= month_days(self.year as int, self.month as int)
        &&& self.hour < 24
        &&& self.minute < 60
        &&& self.second < 60
    }

    /// The seconds from the start of 1970 to the moment.
    pub open spec fn seconds(&self) -> int {
        (days_before_year(self.year as int) + days_before_month(
            self.year as int,
            self.month as int,
        ) + self.day - 1) * 86400 + self.hour * 3600 + self.minute * 60 + self.second
    }
}

/// The days of a year.
fn days_of_year(year: u64) -> (days: u64)
    ensures
        days == year_days(year as int),
{
    if year % 4 == 0 && (year % 100 != 0 || year % 400 == 0) {
        366
    } else {
        365
    }
}

/// The days of a month.
fn days_of_month(year: u64, month: u64) -> (days: u64)
    ensures
        days == month_days(year as int, month as int),
{
    if month == 2 {
        if days_of_year(year) == 366 {
            29
        } else {
            28
        }
    } else if month == 4 || month == 6 || month == 9 || month == 11 {
        30
    } else {
        31
    }
}

/// The hour, the minute and the second make up the time of day.
proof fn lemma_time_of_day(seconds: int)
    requires
        0 <= seconds,
    ensures
        seconds % 86400 % 3600 == seconds % 3600,
        seconds % 86400 % 60 == seconds % 60,
        0 <= seconds % 86400 / 3600 < 24,
        0 <= seconds % 3600 / 60 < 60,
        seconds == seconds / 86400 * 86400 + seconds % 86400 / 3600 * 3600 + seconds % 3600 / 60
            * 60 + seconds % 60,
{
}

/// The moment that lies `seconds` after the start of 1970.
pub fn moment_at(seconds: u64) -> (moment: Moment)
    ensures
        moment.valid(),
        moment.seconds() == seconds,
        moment.year >= 1970,
        1 <= moment.month <= 12,
        1 <= moment.day <= 31,
        moment.hour == seconds % 86400 / 3600,
        moment.minute == seconds % 3600 / 60,
        moment.second == seconds % 60,
{
    let days: u64 = seconds / 86400;
    let mut year: u64 = 1970;
    let mut left: u64 = days;
    while left >= days_of_year(year)
        invariant
            1970 <= year <= 1970 + (days - left),
            left <= days < 0x1_0000_0000_0000,
            days_before_year(year as int) + left == days,
        decreases left,
    {
        left -= days_of_year(year);
        year += 1;
    }
    let mut month: u64 = 1;
    assert(days_before_month(year as int, 13) == year_days(year as int)) by {
        reveal_with_fuel(days_before_month, 13);
    }
    while left >= days_of_month(year, month)
        invariant
            1 <= month <= 12,
            days_before_month(year as int, 13) == year_days(year as int),
            days_before_month(year as int, month as int) + left < year_days(year as int),
            days_before_year(year as int) + days_before_month(year as int, month as int) + left
                == days,
        decreases left,
    {
        left -= days_of_month(year, month);
        month += 1;
    }
    let rest: u64 = seconds % 86400;
    proof {
        lemma_time_of_day(seconds as int);
    }
    Moment {
        year,
        month,
        day: left + 1,
        hour: rest / 3600,
        minute: rest % 3600 / 60,
        second: rest % 60,
    }
}

/// The decimal notation of `n`, with zeros in front up to `width` digits.
pub open spec fn padded_digits(n: nat, width: nat) -> Seq<char> {
    let digits = crate::text::digits(n);
    if digits.len() >= width {
        digits
    } else {
        Seq::new((width - digits.len()) as nat, |i: int| '0') + digits
    }
}

/// Appends the decimal notation of `n`, with zeros in front up to `width` digits.
fn append_padded(text: &mut String, n: u64, width: usize)
    ensures
        final(text)@ == old(text)@ + padded_digits(n as nat, width as nat),
{
    let digits = decimal(n);
    let count: usize = chars_of(digits.as_str()).len();
    let ghost before = text@;
    let mut zeros: usize = 0;
    while count < width && zeros < width - count
        invariant
            count < width ==> zeros <= width - count,
            count >= width ==> zeros == 0,
            text@ == before + Seq::new(zeros as nat, |i: int| '0'),
        decreases width - zeros,
    {
        text.push('0');
        zeros += 1;
        assert(text@ =~= before + Seq::new(zeros as nat, |i: int| '0'));
    }
    text.append(digits.as_str());
    assert(text@ =~= before + padded_digits(n as nat, width as nat));
}

/// The name of the log file that is started at `moment`.
pub fn log_name(moment: &Moment) -> (name: String)
    ensures
        name@ == "tacklecast_"@ + padded_digits(moment.year as nat, 4) + padded_digits(
            moment.month as nat,
            2,
        ) + padded_digits(moment.day as nat, 2) + "_"@ + padded_digits(moment.hour as nat, 2)
            + padded_digits(moment.minute as nat, 2) + padded_digits(moment.second as nat, 2)
            + ".log"@,
{
    let mut name = "tacklecast_".to_owned();
    append_padded(&mut name, moment.year, 4);
    append_padded(&mut name, moment.month, 2);
    append_padded(&mut name, moment.day, 2);
    name.append("_");
    append_padded(&mut name, moment.hour, 2);
    append_padded(&mut name, moment.minute, 2);
    append_padded(&mut name, moment.second, 2);
    name.append(".log");
    name
}

/// The time in front of a line that is logged at `moment`.
pub fn line_time(moment: &Moment) -> (text: String)
    ensures
        text@ == padded_digits(moment.year as nat, 4) + "-"@ + padded_digits(
            moment.month as nat,
            2,
        ) + "-"@ + padded_digits(moment.day as nat, 2) + " "@ + padded_digits(
            moment.hour as nat,
            2,
        ) + ":"@ + padded_digits(moment.minute as nat, 2) + ":"@ + padded_digits(
            moment.second as nat,
            2,
        ),
{
    let mut text = String::new();
    append_padded(&mut text, moment.year, 4);
    assert(text@ =~= padded_digits(moment.year as nat, 4));
    text.append("-");
    append_padded(&mut text, moment.month, 2);
    text.append("-");
    append_padded(&mut text, moment.day, 2);
    text.append(" ");
    append_padded(&mut text, moment.hour, 2);
    text.append(":");
    append_padded(&mut text, moment.minute, 2);
    text.append(":");
    append_padded(&mut text, moment.second, 2);
    text
}

/// How many log files are kept.
pub const KEPT_LOGS: usize = 5;

/// The file is a log file by its name.
pub open spec fn is_log(name: Seq<char>) -> bool {
    &&& name.len() >= "tacklecast_"@.len() + ".log"@.len()
    &&& crate::text::occurs_at(name, "tacklecast_"@, 0)
    &&& crate::text::occurs_at(name, ".log"@, name.len() - ".log"@.len())
}

/// How many of the first `n` files are log files that are newer than `name`. The names of log
/// files are in the order of their times.
pub open spec fn newer_logs(names: Seq<String>, n: int, name: Seq<char>) -> nat
    decreases n,
{
    if n <= 0 {
        0
    } else {
        newer_logs(names, n - 1, name) + if is_log(names[n - 1]@) && crate::text::text_before(
            name,
            names[n - 1]@,
        ) {
            1nat
        } else {
            0nat
        }
    }
}

/// File `i` is a log file, and as many as are kept are newer.
pub open spec fn is_stale(names: Seq<String>, i: int) -> bool {
    is_log(names[i]@) && newer_logs(names, names.len() as int, names[i]@) >= KEPT_LOGS
}

/// The places of the stale log files among the first `n`, in order.
pub open spec fn stale_places(names: Seq<String>, n: int) -> Seq<usize>
    decreases n,
{
    if n <= 0 {
        seq![]
    } else if is_stale(names, n - 1) {
        stale_places(names, n - 1).push((n - 1) as usize)
    } else {
        stale_places(names, n - 1)
    }
}

/// The file is a log file by its name.
fn looks_like_log(name: &str) -> (found: bool)
    ensures
        found == is_log(name@),
{
    let chars = chars_of(name);
    let start = chars_of("tacklecast_");
    let end = chars_of(".log");
    proof {
        reveal_strlit("tacklecast_");
        reveal_strlit(".log");
    }
    chars.len() >= start.len() + end.len() && stands_at(chars.as_slice(), start.as_slice(), 0)
        && stands_at(chars.as_slice(), end.as_slice(), chars.len() - end.len())
}

/// The places of the log files to remove: all but the newest ones.
pub fn stale_logs(names: &[String]) -> (places: Vec<usize>)
    ensures
        places@ == stale_places(names@, names@.len() as int),
        forall|i: int|
            0 <= i < names@.len() ==> (places@.contains(i as usize) <==> is_log(
                (#[trigger] names@[i])@,
            ) && newer_logs(names@, names@.len() as int, names@[i]@) >= 5),
        forall|p: int, q: int| 0 <= p < q < places@.len() ==> places@[p] < places@[q],
        forall|p: int| 0 <= p < places@.len() ==> #[trigger] places@[p] < names@.len(),
{
    let mut places: Vec<usize> = Vec::new();
    let mut i: usize = 0;
    while i < names.len()
        invariant
            i <= names.len(),
            places@ == stale_places(names@, i as int),
        decreases names.len() - i,
    {
        let mut newer: usize = 0;
        let mut j: usize = 0;
        while j < names.len()
            invariant
                i < names.len(),
                j <= names.len(),
                newer <= j,
                newer == newer_logs(names@, j as int, names@[i as int]@),
            decreases names.len() - j,
        {
            if looks_like_log(names[j].as_str()) && is_before(
                names[i].as_str(),
                names[j].as_str(),
            ) {
                newer += 1;
            }
            j += 1;
        }
        if looks_like_log(names[i].as_str()) && newer >= KEPT_LOGS {
            places.push(i);
        }
        i += 1;
    }
    proof {
        assert(names@.len() == names.len());
        lemma_stale_places(names@, names@.len() as int);
    }
    places
}

/// Every fourth year has a leap day, but of the years that end a century only every fourth.
pub proof fn law_leap_years(year: int)
    ensures
        year % 4 != 0 ==> !is_leap(year),
        year % 4 == 0 && year % 100 != 0 ==> is_leap(year),
        year % 100 == 0 && year % 400 != 0 ==> !is_leap(year),
        year % 400 == 0 ==> is_leap(year),
        is_leap(year + 400) == is_leap(year),
        year_days(year) == if is_leap(year) {
            366int
        } else {
            365int
        },
{
}

/// Each month has its days, and the days of the months come to those of the year.
pub proof fn law_days_of_the_months(year: int)
    ensures
        month_days(year, 1) == 31,
        month_days(year, 2) == if is_leap(year) {
            29int
        } else {
            28int
        },
        month_days(year, 3) == 31,
        month_days(year, 4) == 30,
        month_days(year, 5) == 31,
        month_days(year, 6) == 30,
        month_days(year, 7) == 31,
        month_days(year, 8) == 31,
        month_days(year, 9) == 30,
        month_days(year, 10) == 31,
        month_days(year, 11) == 30,
        month_days(year, 12) == 31,
        days_before_month(year, 1) == 0,
        days_before_month(year, 13) == year_days(year),
{
    reveal_with_fuel(days_before_month, 13);
}

/// Years and months follow each other without a gap, from the start of 1970 on.
pub proof fn law_days_follow_each_other(year: int, month: int)
    ensures
        days_before_year(1970) == 0,
        year >= 1970 ==> days_before_year(year + 1) == days_before_year(year) + year_days(year),
        month >= 1 ==> days_before_month(year, month + 1) == days_before_month(year, month)
            + month_days(year, month),
{
}

/// A later month starts after the end of an earlier one.
proof fn lemma_later_month(year: int, a: int, b: int)
    requires
        1 <= a < b,
    ensures
        days_before_month(year, a) + month_days(year, a) <= days_before_month(year, b),
    decreases b - a,
{
    if a + 1 < b {
        lemma_later_month(year, a, b - 1);
    }
}

/// A later year starts after the end of an earlier one.
proof fn lemma_later_year(a: int, b: int)
    requires
        1970 <= a < b,
    ensures
        days_before_year(a) + year_days(a) <= days_before_year(b),
    decreases b - a,
{
    if a + 1 < b {
        lemma_later_year(a, b - 1);
    }
}

/// The days from the start of 1970 to a moment.
spec fn days_before(moment: Moment) -> int {
    days_before_year(moment.year as int) + days_before_month(
        moment.year as int,
        moment.month as int,
    ) + moment.day - 1
}

/// A day of a year lies before its end.
proof fn lemma_day_in_year(moment: Moment)
    requires
        moment.valid(),
    ensures
        days_before_year(moment.year as int) <= days_before(moment) < days_before_year(
            moment.year as int,
        ) + year_days(moment.year as int),
        days_before_month(moment.year as int, moment.month as int) >= 0,
{
    let year = moment.year as int;
    law_days_of_the_months(year);
    lemma_later_month(year, moment.month as int, 13);
    if moment.month > 1 {
        lemma_later_month(year, 1, moment.month as int);
    }
}

/// A moment of a later day lies later.
proof fn lemma_later_day(a: Moment, b: Moment)
    requires
        a.valid(),
        b.valid(),
        a.year < b.year || a.year == b.year && (a.month < b.month || a.month == b.month && a.day
            < b.day),
    ensures
        days_before(a) < days_before(b),
{
    if a.year < b.year {
        lemma_day_in_year(a);
        lemma_day_in_year(b);
        lemma_later_year(a.year as int, b.year as int);
    } else if a.month < b.month {
        lemma_later_month(a.year as int, a.month as int, b.month as int);
    }
}

/// Moments follow each other as the calendar and the clock say: the first part that differs, from
/// the year to the second, decides which of two lies later. So no two moments lie at the same time.
pub proof fn law_calendar_and_clock_give_the_order(a: Moment, b: Moment)
    requires
        a.valid(),
        b.valid(),
    ensures
        a.year < b.year ==> a.seconds() < b.seconds(),
        a.year == b.year && a.month < b.month ==> a.seconds() < b.seconds(),
        a.year == b.year && a.month == b.month && a.day < b.day ==> a.seconds() < b.seconds(),
        a.year == b.year && a.month == b.month && a.day == b.day ==> a.seconds() - b.seconds() == (
        a.hour - b.hour) * 3600 + (a.minute - b.minute) * 60 + (a.second - b.second),
        a.seconds() == b.seconds() ==> a == b,
{
    if a.year < b.year || a.year == b.year && (a.month < b.month || a.month == b.month && a.day
        < b.day) {
        lemma_later_day(a, b);
    }
    if b.year < a.year || b.year == a.year && (b.month < a.month || b.month == a.month && b.day
        < a.day) {
        lemma_later_day(b, a);
    }
    assert(a.seconds() == days_before(a) * 86400 + a.hour * 3600 + a.minute * 60 + a.second);
    assert(b.seconds() == days_before(b) * 86400 + b.hour * 3600 + b.minute * 60 + b.second);
}

/// The first moment is the start of 1970, and a day later the same time of the next day.
pub proof fn law_time_starts_with_1970(moment: Moment)
    requires
        moment.year == 1970,
        moment.month == 1,
    ensures
        moment.seconds() == (moment.day - 1) * 86400 + moment.hour * 3600 + moment.minute * 60
            + moment.second,
{
}

/// Digits with zeros in front are digits alone, stand for the same number, are no shorter than
/// asked for, and are no longer than the number needs otherwise.
pub proof fn law_zeros_in_front_change_nothing(n: nat, width: nat)
    ensures
        crate::versions::number(padded_digits(n, width)) == n,
        padded_digits(n, width).len() >= width,
        padded_digits(n, width).len() > width ==> padded_digits(n, width) == crate::text::digits(n),
        crate::text::digits(n).len() >= width ==> padded_digits(n, width) == crate::text::digits(n),
        forall|i: int|
            0 <= i < padded_digits(n, width).len() ==> 48 <= #[trigger] padded_digits(
                n,
                width,
            )[i] as int <= 57,
{
    let digits = crate::text::digits(n);
    crate::text::law_decimal_reads_back(n);
    if digits.len() < width {
        lemma_zeros_in_front((width - digits.len()) as nat, digits);
    }
}

/// Zeros in front of digits do not change the number.
proof fn lemma_zeros_in_front(zeros: nat, digits: Seq<char>)
    ensures
        crate::versions::number(Seq::new(zeros, |i: int| '0') + digits) == crate::versions::number(
            digits,
        ),
    decreases zeros + digits.len(),
{
    let all = Seq::new(zeros, |i: int| '0') + digits;
    if digits.len() > 0 {
        lemma_zeros_in_front(zeros, digits.drop_last());
        assert(all.drop_last() =~= Seq::new(zeros, |i: int| '0') + digits.drop_last());
        assert(all.last() == digits.last());
    } else if zeros > 0 {
        lemma_zeros_in_front((zeros - 1) as nat, digits);
        assert(all.drop_last() =~= Seq::new((zeros - 1) as nat, |i: int| '0') + digits);
        assert(all.last() == '0');
    } else {
        assert(all =~= digits);
    }
}

/// The parts of a time have two digits each.
pub proof fn law_two_digits_below_a_hundred(n: nat)
    ensures
        n < 100 ==> padded_digits(n, 2).len() == 2,
        n < 10000 ==> padded_digits(n, 4).len() == 4,
{
    reveal_with_fuel(crate::text::digits, 5);
}

/// A log file is one whose name starts and ends like that of a log file, whatever stands between.
pub proof fn law_log_files_go_by_their_names(name: Seq<char>, between: Seq<char>)
    ensures
        is_log("tacklecast_"@ + between + ".log"@),
        is_log(name) ==> name.len() >= 15 && name == "tacklecast_"@ + name.subrange(
            11,
            name.len() - 4,
        ) + ".log"@,
{
    let start = "tacklecast_"@;
    let end = ".log"@;
    reveal_strlit("tacklecast_");
    reveal_strlit(".log");
    let whole = start + between + end;
    assert(whole.subrange(0, start.len() as int) =~= start);
    assert(whole.subrange(whole.len() - end.len(), whole.len() as int) =~= end);
    if is_log(name) {
        assert(start.len() == 11 && end.len() == 4);
        assert(name.subrange(0, 11) == start);
        assert(name.subrange(name.len() - 4, name.len() as int) == end);
        assert forall|i: int| 0 <= i < 11 implies name[i] == #[trigger] start[i] by {
            assert(name.subrange(0, 11)[i] == start[i]);
        }
        assert forall|i: int| 0 <= i < 4 implies name[name.len() - 4 + i] == #[trigger] end[i] by {
            assert(name.subrange(name.len() - 4, name.len() as int)[i] == end[i]);
        }
        assert(name =~= start + name.subrange(11, name.len() - 4) + end);
    }
}

/// Only the first `n` files count among the first `n`.
proof fn lemma_newer_of_the_first(a: Seq<String>, b: Seq<String>, n: int, name: Seq<char>)
    requires
        n <= a.len(),
        n <= b.len(),
        forall|i: int| 0 <= i < n ==> a[i] == b[i],
    ensures
        newer_logs(a, n, name) == newer_logs(b, n, name),
    decreases n,
{
    if n > 0 {
        lemma_newer_of_the_first(a, b, n - 1, name);
    }
}

/// Each log file with a later name counts once, and no other file counts.
pub proof fn law_newer_logs_count_once(names: Seq<String>, more: String, name: Seq<char>)
    ensures
        newer_logs(names, 0, name) == 0,
        newer_logs(names.push(more), names.len() as int + 1, name) == newer_logs(
            names,
            names.len() as int,
            name,
        ) + if is_log(more@) && crate::text::text_before(name, more@) {
            1nat
        } else {
            0nat
        },
{
    lemma_newer_of_the_first(names, names.push(more), names.len() as int, name);
    assert(names.push(more)[names.len() as int] == more);
}

/// The stale places are in order, and are those of the stale files.
proof fn lemma_stale_places(names: Seq<String>, n: int)
    requires
        0 <= n <= names.len() <= usize::MAX,
    ensures
        forall|i: int|
            0 <= i < n ==> (stale_places(names, n).contains(i as usize) <==> is_log(
                (#[trigger] names[i])@,
            ) && newer_logs(names, names.len() as int, names[i]@) >= 5),
        forall|p: int, q: int|
            0 <= p < q < stale_places(names, n).len() ==> stale_places(names, n)[p] < stale_places(
                names,
                n,
            )[q],
        forall|p: int|
            0 <= p < stale_places(names, n).len() ==> #[trigger] stale_places(names, n)[p] < n,
    decreases n,
{
    if n > 0 {
        lemma_stale_places(names, n - 1);
        let before = stale_places(names, n - 1);
        let after = stale_places(names, n);
        assert forall|i: int| 0 <= i < n implies (after.contains(i as usize) <==> is_log(
            (#[trigger] names[i])@,
        ) && newer_logs(names, names.len() as int, names[i]@) >= 5) by {
            if after.contains(i as usize) {
                let p = choose|p: int| 0 <= p < after.len() && after[p] == i as usize;
                if p < before.len() {
                    assert(before[p] == i as usize);
                    assert(before.contains(i as usize));
                }
            }
            if i < n - 1 && before.contains(i as usize) {
                let p = choose|p: int| 0 <= p < before.len() && before[p] == i as usize;
                assert(after[p] == i as usize);
            }
            if i == n - 1 && is_stale(names, i) {
                assert(after[before.len() as int] == i as usize);
            }
        }
    }
}

/// Log files that have fewer than five newer ones are kept, whatever else there is; so is every
/// file that is no log file.
pub proof fn law_newest_logs_are_kept(names: Seq<String>, i: int)
    requires
        0 <= i < names.len() <= usize::MAX,
    ensures
        stale_places(names, names.len() as int).contains(i as usize) <==> is_log(names[i]@)
            && newer_logs(names, names.len() as int, names[i]@) >= 5,
        is_stale(names, i) == (is_log(names[i]@) && newer_logs(
            names,
            names.len() as int,
            names[i]@,
        ) >= 5),
{
    lemma_stale_places(names, names.len() as int);
}

}
