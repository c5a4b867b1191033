//! Laws of the calendar, and of what is dated by it.

use vstd::prelude::*;

verus! {

use crate::money::Cents;
use crate::store::{is_applied, is_latest_at, is_latest_price, pending, PriceSnapshot};
use crate::time::{
    day_before, day_number, is_day, lemma_day_before, month_before, month_length, plus_months,
    utc_fields, utc_midnight, valid_instant, weekday_of,
};

/// Days are counted one by one from the first of 1970: behind a day comes the next of its month,
/// behind the last of a month the first of the next, and behind the last of a year the first of
/// the next.
pub proof fn law_days_follow(year: int, month: int, day: int)
    requires
        is_day(year, month, day),
    ensures
        day_number(1970, 1, 1) == 0,
        day < month_length(year, month) ==> day_number(year, month, day + 1) == day_number(
            year,
            month,
            day,
        ) + 1,
        day == month_length(year, month) && month < 12 ==> day_number(year, month + 1, 1)
            == day_number(year, month, day) + 1,
        day == month_length(year, month) && month == 12 ==> day_number(year + 1, 1, 1)
            == day_number(year, month, day) + 1,
{
}

/// A year has a leap day where four divides it, but of the full hundreds only where four hundred
/// does.
pub proof fn law_years(year: int)
    requires
        -262143 <= year <= 262142,
    ensures
        day_number(year + 1, 1, 1) - day_number(year, 1, 1) == 337 + month_length(year, 2),
        year % 4 != 0 ==> month_length(year, 2) == 28,
        year % 4 == 0 && year % 100 != 0 ==> month_length(year, 2) == 29,
        year % 100 == 0 && year % 400 != 0 ==> month_length(year, 2) == 28,
        year % 400 == 0 ==> month_length(year, 2) == 29,
{
}

/// A day begins in UTC as many days behind the first of 1970 as its number says; what is no day
/// of the calendar does not begin.
pub proof fn law_midnight(year: i32, month: u32, day: u32)
    ensures
        is_day(year as int, month as int, day as int) ==> utc_midnight(year, month, day) is Some
            && utc_midnight(year, month, day)->0 == 86_400 * day_number(
            year as int,
            month as int,
            day as int,
        ),
        day == 0 || month == 0 || month > 12 || day > month_length(year as int, month as int)
            ==> utc_midnight(year, month, day) is None,
{
}

/// The weekday of a day, by its number.
proof fn lemma_weekday(year: i32, month: u32, day: u32, n: int)
    requires
        is_day(year as int, month as int, day as int),
        n == day_number(year as int, month as int, day as int),
    ensures
        weekday_of(year, month, day) is Some,
        weekday_of(year, month, day)->0 == (n + 3) % 7,
{
}

/// From one day to the next the weekday moves on by one of seven; the first of 1970 was a Thursday.
pub proof fn law_weekdays_follow(a: (i32, u32, u32), b: (i32, u32, u32), n: int)
    requires
        is_day(a.0 as int, a.1 as int, a.2 as int),
        is_day(b.0 as int, b.1 as int, b.2 as int),
        day_number(a.0 as int, a.1 as int, a.2 as int) == n,
        day_number(b.0 as int, b.1 as int, b.2 as int) == n + 1,
    ensures
        weekday_of(a.0, a.1, a.2) is Some && weekday_of(b.0, b.1, b.2) is Some,
        weekday_of(a.0, a.1, a.2)->0 <= 6,
        weekday_of(a.0, a.1, a.2)->0 < 6 ==> weekday_of(b.0, b.1, b.2)->0 == weekday_of(
            a.0,
            a.1,
            a.2,
        )->0 + 1,
        weekday_of(a.0, a.1, a.2)->0 == 6 ==> weekday_of(b.0, b.1, b.2)->0 == 0,
        n == 0 ==> weekday_of(a.0, a.1, a.2)->0 == 3,
{
    lemma_weekday(a.0, a.1, a.2, n);
    lemma_weekday(b.0, b.1, b.2, n + 1);
}

/// Moving on by months keeps the time of day and the day of the month, or takes the last day of a
/// month that is too short.
pub proof fn law_months_on(ts: i64, months: u32, year: int, month: int)
    requires
        valid_instant(ts),
        1 <= utc_fields(ts).1 <= 12,
        1 <= utc_fields(ts).2 <= 31,
        1 <= month <= 12,
        12 * year + month == 12 * utc_fields(ts).0 + utc_fields(ts).1 + months,
        -262143 <= year <= 262142,
    ensures
        plus_months(ts, months) is Some,
        plus_months(ts, months)->0 % 86_400 == ts % 86_400,
        utc_fields(ts).2 <= month_length(year, month) ==> plus_months(ts, months)->0 / 86_400
            == day_number(year, month, utc_fields(ts).2 as int),
        utc_fields(ts).2 > month_length(year, month) ==> plus_months(ts, months)->0 / 86_400
            == day_number(year, month, month_length(year, month) as int),
{
    let f = utc_fields(ts);
    assert((f.1 - 1 + months) / 12 == year - f.0);
    assert((f.1 - 1 + months) % 12 + 1 == month);
}

/// The day before a day is the one that it follows.
pub proof fn law_day_before(year: i32, month: u32, day: u32)
    ensures
        day_before(year, month, day) is Some ==> {
            let b = day_before(year, month, day)->0;
            is_day(b.0 as int, b.1 as int, b.2 as int) && day_number(
                b.0 as int,
                b.1 as int,
                b.2 as int,
            ) + 1 == day_number(year as int, month as int, day as int)
        },
{
    if day_before(year, month, day) is Some {
        lemma_day_before(year, month, day);
    }
}

/// The month before a month is the one that it follows.
pub proof fn law_month_before(year: int, month: int)
    requires
        1 <= month <= 12,
    ensures
        1 <= month_before(year, month).1 <= 12,
        12 * month_before(year, month).0 + month_before(year, month).1 + 1 == 12 * year + month,
{
}

/// The price that is read is one of the commodity's, and none of them is of a later time; there
/// is one where the commodity has any.
pub proof fn law_latest_price(r: Option<Cents>, rows: Seq<PriceSnapshot>, commodity: Seq<char>)
    requires
        is_latest_price(r, rows, commodity),
    ensures
        r is Some <==> exists|i: int|
            0 <= i < rows.len() && (#[trigger] rows[i]).commodity@ == commodity,
        r is Some ==> exists|i: int|
            0 <= i < rows.len() && (#[trigger] rows[i]).commodity@ == commodity
                && rows[i].price_cents == r->0 && forall|j: int|
                0 <= j < rows.len() && (#[trigger] rows[j]).commodity@ == commodity
                    ==> rows[j].taken_at <= rows[i].taken_at && (rows[j].taken_at
                    == rows[i].taken_at ==> rows[j].id <= rows[i].id),
{
    if r is Some {
        let i = choose|i: int| #[trigger]
            is_latest_at(rows, commodity, i) && rows[i].price_cents == r->0;
        assert(rows[i].commodity@ == commodity);
    }
}

/// What is still to be run is what was not, in its order.
pub proof fn law_pending(names: Seq<&'static str>, applied: Seq<String>)
    ensures
        pending(names, applied) == names.filter(
            |name: &'static str|
                forall|i: int| 0 <= i < applied.len() ==> (#[trigger] applied[i])@ != name@,
        ),
    decreases names.len(),
{
    reveal(Seq::filter);
    if names.len() > 0 {
        law_pending(names.drop_last(), applied);
        assert(is_applied(applied, names.last()@) || !is_applied(applied, names.last()@));
    }
}

} // verus!
