//! Dates and times as the lists show them: clock times, relative days
//! ("today", "yesterday", a weekday), durations, and results grouped by day.
//! Local dates and times come in as plain calendar values: the clock and the
//! time zone stay with the caller, while chrono's calendar finds the day
//! before a date and the ISO week of a date.
use vstd::prelude::*;
use crate::models::Record;
use crate::number_format::{decimal, decimal_chars};
use crate::text_preview::append_chars;

verus! {

/// The days of the week.
#[derive(Clone, Copy, PartialEq, Eq, Debug, Structural)]
pub enum Weekday {
    Mon,
    Tue,
    Wed,
    Thu,
    Fri,
    Sat,
    Sun,
}

/// A day of the calendar.
#[derive(Clone, Copy, PartialEq, Eq, Debug, Structural)]
pub struct CalendarDay {
    pub year: i32,
    pub month: u32,
    pub day: u32,
}

/// A local date and time to the minute, with its day of the week.
#[derive(Clone, Copy, PartialEq, Eq, Debug, Structural)]
pub struct LocalStamp {
    pub date: CalendarDay,
    pub hour: u32,
    pub minute: u32,
    pub weekday: Weekday,
}

impl LocalStamp {
    /// The fields are in the ranges of a calendar and a clock.
    pub open spec fn wf(&self) -> bool {
        1 <= self.date.month <= 12 && 1 <= self.date.day <= 31 && self.hour < 24 && self.minute
            < 60
    }
}

/// `n` with at least `width` digits, zeros in front.
pub open spec fn zero_padded(n: nat, width: nat) -> Seq<char> {
    let d = decimal(n);
    if d.len() < width {
        Seq::new((width - d.len()) as nat, |i: int| '0') + d
    } else {
        d
    }
}

/// `n` in two digits (`%H`, `%M`, `%m`, `%d`).
pub open spec fn two_digits(n: nat) -> Seq<char> {
    zero_padded(n, 2)
}

/// A year as `%Y` writes it: four digits with zeros in front, and a sign in
/// front of years below 0 or above 9999.
pub open spec fn year_text(y: int) -> Seq<char> {
    if 0 <= y <= 9999 {
        zero_padded(y as nat, 4)
    } else if y < 0 {
        seq!['-'] + zero_padded((-y) as nat, 4)
    } else {
        seq!['+'] + zero_padded(y as nat, 4)
    }
}

/// `HH:MM` (`%H:%M`).
pub open spec fn clock_text(s: LocalStamp) -> Seq<char> {
    two_digits(s.hour as nat) + seq![':'] + two_digits(s.minute as nat)
}

/// `MM-DD HH:MM` (`%m-%d %H:%M`).
pub open spec fn month_day_clock_text(s: LocalStamp) -> Seq<char> {
    two_digits(s.date.month as nat) + seq!['-'] + two_digits(s.date.day as nat) + seq![' ']
        + clock_text(s)
}

/// `YYYY-MM-DD HH:MM` (`%Y-%m-%d %H:%M`).
pub open spec fn full_time_text(s: LocalStamp) -> Seq<char> {
    year_text(s.date.year as int) + seq!['-'] + two_digits(s.date.month as nat) + seq!['-']
        + two_digits(s.date.day as nat) + seq![' '] + clock_text(s)
}

/// `M月D日` (`%-m月%-d日`).
pub open spec fn month_day_text(d: CalendarDay) -> Seq<char> {
    decimal(d.month as nat) + seq!['月'] + decimal(d.day as nat) + seq!['日']
}

/// `Y年M月D日` (`%Y年%-m月%-d日`).
pub open spec fn year_month_day_text(d: CalendarDay) -> Seq<char> {
    year_text(d.year as int) + seq!['年'] + month_day_text(d)
}

/// The name of a weekday: `周一` to `周日`.
pub open spec fn weekday_name(w: Weekday) -> Seq<char> {
    match w {
        Weekday::Mon => seq!['周', '一'],
        Weekday::Tue => seq!['周', '二'],
        Weekday::Wed => seq!['周', '三'],
        Weekday::Thu => seq!['周', '四'],
        Weekday::Fri => seq!['周', '五'],
        Weekday::Sat => seq!['周', '六'],
        Weekday::Sun => seq!['周', '日'],
    }
}

/// The digits of `n`, at least `width` of them.
fn zero_padded_chars(n: u64, width: usize) -> (r: Vec<char>)
    requires
        width <= 4,
    ensures
        r@ == zero_padded(n as nat, width as nat),
{
    let digits = decimal_chars(n as u128);
    if digits.len() < width {
        let mut r: Vec<char> = Vec::new();
        let pad = width - digits.len();
        let mut i: usize = 0;
        while i < pad
            invariant
                0 <= i <= pad,
                r@ =~= Seq::new(i as nat, |k: int| '0'),
            decreases pad - i,
        {
            r.push('0');
            i += 1;
        }
        append_chars(&mut r, digits.as_slice());
        r
    } else {
        digits
    }
}

/// The characters of a year as `%Y` writes it.
fn year_chars(y: i32) -> (r: Vec<char>)
    ensures
        r@ == year_text(y as int),
{
    if 0 <= y && y <= 9999 {
        zero_padded_chars(y as u64, 4)
    } else if y < 0 {
        let magnitude: u64 = (0i64 - (y as i64)) as u64;
        let mut r: Vec<char> = Vec::new();
        r.push('-');
        let digits = zero_padded_chars(magnitude, 4);
        append_chars(&mut r, digits.as_slice());
        r
    } else {
        let mut r: Vec<char> = Vec::new();
        r.push('+');
        let digits = zero_padded_chars(y as u64, 4);
        append_chars(&mut r, digits.as_slice());
        r
    }
}

/// The characters of `HH:MM`.
fn clock_chars(s: LocalStamp) -> (r: Vec<char>)
    ensures
        r@ == clock_text(s),
{
    let mut r = zero_padded_chars(s.hour as u64, 2);
    r.push(':');
    let m = zero_padded_chars(s.minute as u64, 2);
    append_chars(&mut r, m.as_slice());
    r
}

/// The clock time of a result, `HH:MM`.
pub fn format_time(s: LocalStamp) -> (r: String)
    ensures
        r@ == clock_text(s),
{
    crate::strings::string_of(clock_chars(s).as_slice())
}

/// A date and time as the data panel shows it, `YYYY-MM-DD HH:MM`.
pub fn format_full_time(s: LocalStamp) -> (r: String)
    ensures
        r@ == full_time_text(s),
{
    let mut r = year_chars(s.date.year);
    r.push('-');
    append_chars(&mut r, zero_padded_chars(s.date.month as u64, 2).as_slice());
    r.push('-');
    append_chars(&mut r, zero_padded_chars(s.date.day as u64, 2).as_slice());
    r.push(' ');
    append_chars(&mut r, clock_chars(s).as_slice());
    crate::strings::string_of(r.as_slice())
}

/// The day before `(year, month, day)` in chrono's calendar, when that is a
/// valid date with a day before it.
pub uninterp spec fn previous_day(year: i32, month: u32, day: u32) -> Option<(i32, u32, u32)>;

/// Calls chrono's `NaiveDate::from_ymd_opt` and `NaiveDate::pred_opt`: the
/// day before a valid date, or `None`. The contract names the result; it does
/// not state the calendar.
#[verifier::external_body]
fn day_before(year: i32, month: u32, day: u32) -> (r: Option<(i32, u32, u32)>)
    ensures
        r == previous_day(year, month, day),
{
    match chrono::NaiveDate::from_ymd_opt(year, month, day) {
        Some(date) => match date.pred_opt() {
            Some(d) => Some(
                (chrono::Datelike::year(&d), chrono::Datelike::month(&d), chrono::Datelike::day(&d)),
            ),
            None => None,
        },
        None => None,
    }
}

/// The ISO week (its year and number) of `(year, month, day)` in chrono's
/// calendar, when that is a valid date.
pub uninterp spec fn iso_week(year: i32, month: u32, day: u32) -> Option<(i32, u32)>;

/// Calls chrono's `NaiveDate::from_ymd_opt` and `Datelike::iso_week`: the
/// ISO week of a valid date, or `None`. The contract names the result; it
/// does not state the calendar.
#[verifier::external_body]
fn iso_week_of(year: i32, month: u32, day: u32) -> (r: Option<(i32, u32)>)
    ensures
        r == iso_week(year, month, day),
{
    match chrono::NaiveDate::from_ymd_opt(year, month, day) {
        Some(d) => {
            let w = chrono::Datelike::iso_week(&d);
            Some((w.year(), w.week()))
        },
        None => None,
    }
}

/// `d` written as chrono's calendar functions take and give a date.
pub open spec fn ymd(d: CalendarDay) -> (i32, u32, u32) {
    (d.year, d.month, d.day)
}

/// How long ago a record changed, given the day before `today`
/// (`yesterday`, if there is one): `今天 HH:MM`, `昨天 HH:MM`, else
/// `MM-DD HH:MM`.
pub open spec fn relative_time_text_given(
    s: LocalStamp,
    today: CalendarDay,
    yesterday: Option<(i32, u32, u32)>,
) -> Seq<char> {
    if s.date == today {
        seq!['今', '天', ' '] + clock_text(s)
    } else if yesterday == Some(ymd(s.date)) {
        seq!['昨', '天', ' '] + clock_text(s)
    } else {
        month_day_clock_text(s)
    }
}

/// How long ago a record changed, relative to the local day `today`.
pub open spec fn relative_time_text(s: LocalStamp, today: CalendarDay) -> Seq<char> {
    relative_time_text_given(s, today, previous_day(today.year, today.month, today.day))
}

/// The time of `s` relative to the local day `today`, whose day before is
/// `yesterday` (if there is one).
pub fn relative_time_label(s: LocalStamp, today: CalendarDay, yesterday: Option<(i32, u32, u32)>) -> (r:
    String)
    ensures
        r@ == relative_time_text_given(s, today, yesterday),
{
    let mut r: Vec<char> = Vec::new();
    let is_yesterday = match yesterday {
        Some((y, m, d)) => y == s.date.year && m == s.date.month && d == s.date.day,
        None => false,
    };
    if s.date == today {
        r.push('今');
        r.push('天');
        r.push(' ');
        append_chars(&mut r, clock_chars(s).as_slice());
    } else if is_yesterday {
        r.push('昨');
        r.push('天');
        r.push(' ');
        append_chars(&mut r, clock_chars(s).as_slice());
    } else {
        r = zero_padded_chars(s.date.month as u64, 2);
        r.push('-');
        append_chars(&mut r, zero_padded_chars(s.date.day as u64, 2).as_slice());
        r.push(' ');
        append_chars(&mut r, clock_chars(s).as_slice());
    }
    crate::strings::string_of(r.as_slice())
}

/// The time of `s` relative to the local day `today`.
pub fn format_relative_time(s: LocalStamp, today: CalendarDay) -> (r: String)
    ensures
        r@ == relative_time_text(s, today),
{
    let yesterday = day_before(today.year, today.month, today.day);
    relative_time_label(s, today, yesterday)
}

/// The heading of a day in the search results, given the day before `today`
/// and the ISO weeks of the result's day and of `today`: `今天`, `昨天`, the
/// weekday within the current ISO week of the current year, `M月D日` within
/// the current year, else `Y年M月D日`.
pub open spec fn date_group_text_given(
    s: LocalStamp,
    today: CalendarDay,
    yesterday: Option<(i32, u32, u32)>,
    week_of_date: Option<(i32, u32)>,
    week_of_today: Option<(i32, u32)>,
) -> Seq<char> {
    if s.date == today {
        seq!['今', '天']
    } else if yesterday == Some(ymd(s.date)) {
        seq!['昨', '天']
    } else if week_of_date is Some && week_of_date == week_of_today && s.date.year == today.year {
        weekday_name(s.weekday)
    } else if s.date.year == today.year {
        month_day_text(s.date)
    } else {
        year_month_day_text(s.date)
    }
}

/// The heading of a day in the search results, relative to the local day
/// `today`.
pub open spec fn date_group_text(s: LocalStamp, today: CalendarDay) -> Seq<char> {
    date_group_text_given(
        s,
        today,
        previous_day(today.year, today.month, today.day),
        iso_week(s.date.year, s.date.month, s.date.day),
        iso_week(today.year, today.month, today.day),
    )
}

/// The characters of `M月D日`.
fn month_day_chars(d: CalendarDay) -> (r: Vec<char>)
    ensures
        r@ == month_day_text(d),
{
    let mut r = decimal_chars(d.month as u128);
    r.push('月');
    append_chars(&mut r, decimal_chars(d.day as u128).as_slice());
    r.push('日');
    r
}

/// The day heading of `s`, given the local day `today`, the day before it
/// (`yesterday`, if there is one), and the ISO weeks of the day of `s` and
/// of `today`.
pub fn date_group_label(
    s: LocalStamp,
    today: CalendarDay,
    yesterday: Option<(i32, u32, u32)>,
    week_of_date: Option<(i32, u32)>,
    week_of_today: Option<(i32, u32)>,
) -> (r: String)
    ensures
        r@ == date_group_text_given(s, today, yesterday, week_of_date, week_of_today),
{
    let is_yesterday = match yesterday {
        Some((y, m, d)) => y == s.date.year && m == s.date.month && d == s.date.day,
        None => false,
    };
    let same_week = match (week_of_date, week_of_today) {
        (Some((y1, w1)), Some((y2, w2))) => y1 == y2 && w1 == w2,
        _ => false,
    };
    let chars: Vec<char> = if s.date == today {
        vec!['今', '天']
    } else if is_yesterday {
        vec!['昨', '天']
    } else if same_week && s.date.year == today.year {
        match s.weekday {
            Weekday::Mon => vec!['周', '一'],
            Weekday::Tue => vec!['周', '二'],
            Weekday::Wed => vec!['周', '三'],
            Weekday::Thu => vec!['周', '四'],
            Weekday::Fri => vec!['周', '五'],
            Weekday::Sat => vec!['周', '六'],
            Weekday::Sun => vec!['周', '日'],
        }
    } else if s.date.year == today.year {
        month_day_chars(s.date)
    } else {
        let mut r = year_chars(s.date.year);
        r.push('年');
        append_chars(&mut r, month_day_chars(s.date).as_slice());
        r
    };
    crate::strings::string_of(chars.as_slice())
}

/// The day heading of `s`, given the local day `today`.
pub fn format_date_group(s: LocalStamp, today: CalendarDay) -> (r: String)
    ensures
        r@ == date_group_text(s, today),
{
    let yesterday = day_before(today.year, today.month, today.day);
    let week_of_date = iso_week_of(s.date.year, s.date.month, s.date.day);
    let week_of_today = iso_week_of(today.year, today.month, today.day);
    date_group_label(s, today, yesterday, week_of_date, week_of_today)
}

/// `a / b` rounded toward zero, as Rust's `/` on signed integers.
pub open spec fn div_toward_zero(a: int, b: int) -> int {
    if a >= 0 {
        a / b
    } else {
        -((-a) / b)
    }
}

/// The remainder of `div_toward_zero`, with the sign of `a` (Rust's `%`).
pub open spec fn rem_toward_zero(a: int, b: int) -> int {
    a - div_toward_zero(a, b) * b
}

/// How long a task has been under way, from `start` to `now` (nanoseconds
/// since the Unix epoch): `X小时Y分` from one hour on, else `Y分钟`, with whole
/// seconds, hours and minutes rounded toward zero.
pub open spec fn duration_text(start: i128, now: i128) -> Seq<char> {
    let seconds = div_toward_zero(now - start, 1_000_000_000);
    let hours = div_toward_zero(seconds, 3600);
    let minutes = rem_toward_zero(div_toward_zero(seconds, 60), 60);
    if hours > 0 {
        decimal(hours as nat) + seq!['小', '时'] + decimal(minutes as nat) + seq!['分']
    } else if minutes < 0 {
        seq!['-'] + decimal((-minutes) as nat) + seq!['分', '钟']
    } else {
        decimal(minutes as nat) + seq!['分', '钟']
    }
}

/// The distance from `b` up to `a`.
fn gap(a: i128, b: i128) -> (r: u128)
    requires
        b <= a,
    ensures
        r == a - b,
{
    if b >= 0 || a < 0 {
        (a - b) as u128
    } else {
        (a as u128) + ((-(b + 1)) as u128) + 1
    }
}

/// How long a task has been under way at `now`.
pub fn format_duration(start: i128, now: i128) -> (r: String)
    ensures
        r@ == duration_text(start, now),
{
    let negative = now < start;
    let magnitude: u128 = if negative {
        gap(start, now)
    } else {
        gap(now, start)
    };
    let seconds = magnitude / 1_000_000_000;
    let hours = seconds / 3600;
    let minutes = (seconds / 60) % 60;
    proof {
        let e = now - start;
        assert(e == if negative { -(magnitude as int) } else { magnitude as int });
        assert(div_toward_zero(e, 1_000_000_000) == if negative { -(seconds as int) } else { seconds as int });
        assert((seconds as int) / 3600 == hours as int);
        assert(((seconds as int) / 60) % 60 == minutes as int);
        if negative {
            assert(div_toward_zero(-(seconds as int), 3600) == -(hours as int));
            assert(div_toward_zero(-(seconds as int), 60) == -((seconds as int) / 60));
            assert(rem_toward_zero(-((seconds as int) / 60), 60) == -(minutes as int)) by (nonlinear_arith)
                requires
                    minutes as int == ((seconds as int) / 60) % 60,
                    ((seconds as int) / 60) >= 0,
            {
                let q = (seconds as int) / 60;
                assert(q == 60 * (q / 60) + q % 60);
            }
        } else {
            assert(rem_toward_zero((seconds as int) / 60, 60) == minutes as int) by (nonlinear_arith)
                requires
                    minutes as int == ((seconds as int) / 60) % 60,
                    ((seconds as int) / 60) >= 0,
            {
                let q = (seconds as int) / 60;
                assert(q == 60 * (q / 60) + q % 60);
            }
        }
    }
    let mut r: Vec<char> = Vec::new();
    if !negative && hours > 0 {
        r = decimal_chars(hours);
        r.push('小');
        r.push('时');
        append_chars(&mut r, decimal_chars(minutes).as_slice());
        r.push('分');
    } else {
        if negative && minutes > 0 {
            r.push('-');
        }
        append_chars(&mut r, decimal_chars(minutes).as_slice());
        r.push('分');
        r.push('钟');
    }
    crate::strings::string_of(r.as_slice())
}

/// `results` split into runs of neighbours with the same label, each run
/// with its label, in order.
pub open spec fn runs_by_label(labels: Seq<Seq<char>>, results: Seq<Record>) -> Seq<(Seq<char>, Seq<Record>)>
    decreases results.len(),
{
    if results.len() == 0 {
        Seq::empty()
    } else {
        let groups = runs_by_label(labels.drop_last(), results.drop_last());
        let label = labels.last();
        if groups.len() > 0 && groups.last().0 == label {
            groups.drop_last().push((label, groups.last().1.push(results.last())))
        } else {
            groups.push((label, seq![results.last()]))
        }
    }
}

/// The view of a list of labelled groups.
pub open spec fn groups_view(g: Seq<(String, Vec<Record>)>) -> Seq<(Seq<char>, Seq<Record>)> {
    g.map_values(|e: (String, Vec<Record>)| (e.0@, e.1@))
}

/// The search results split by day: neighbours whose `labels` (their day
/// headings) agree form one group.
pub fn group_results_by_date(results: Vec<Record>, labels: Vec<String>) -> (r: Vec<(String, Vec<Record>)>)
    requires
        labels.len() == results.len(),
    ensures
        groups_view(r@) == runs_by_label(crate::strings::string_views(labels@), results@),
{
    let ghost orig = results@;
    let ghost ls = crate::strings::string_views(labels@);
    let mut rest = results;
    let mut groups: Vec<(String, Vec<Record>)> = Vec::new();
    let mut i: usize = 0;
    proof {
        assert(orig.skip(0) =~= orig);
        assert(groups_view(groups@) =~= Seq::<(Seq<char>, Seq<Record>)>::empty());
    }
    while rest.len() > 0
        invariant
            0 <= i <= orig.len(),
            labels.len() == orig.len(),
            ls == crate::strings::string_views(labels@),
            rest@ == orig.skip(i as int),
            groups_view(groups@) == runs_by_label(ls.take(i as int), orig.take(i as int)),
        decreases rest.len(),
    {
        let record = rest.remove(0);
        let label = labels[i].clone();
        let ghost before = groups_view(groups@);
        proof {
            assert(record == orig[i as int]);
            assert(rest@ =~= orig.skip(i + 1));
            assert(orig.take(i + 1).drop_last() =~= orig.take(i as int));
            assert(ls.take(i + 1).drop_last() =~= ls.take(i as int));
            assert(ls.take(i + 1).last() == label@);
        }
        let n = groups.len();
        let same = n > 0 && crate::strings::text_equals(groups[n - 1].0.as_str(), label.as_str());
        if same {
            let (last_label, mut last_records) = groups.pop().unwrap();
            let ghost popped = (last_label, last_records);
            last_records.push(record);
            groups.push((last_label, last_records));
            proof {
                assert(groups_view(groups@) =~= before.drop_last().push(
                    (label@, before.last().1.push(orig[i as int])),
                ));
            }
        } else {
            let mut one: Vec<Record> = Vec::new();
            one.push(record);
            groups.push((label, one));
            proof {
                assert(groups_view(groups@) =~= before.push((ls[i as int], seq![orig[i as int]])));
            }
        }
        i += 1;
    }
    proof {
        assert(orig.take(i as int) =~= orig);
        assert(ls.take(i as int) =~= ls);
    }
    groups
}

/// The records of `groups`, group after group.
pub open spec fn flatten_groups(groups: Seq<(Seq<char>, Seq<Record>)>) -> Seq<Record>
    decreases groups.len(),
{
    if groups.len() == 0 {
        Seq::empty()
    } else {
        flatten_groups(groups.drop_last()) + groups.last().1
    }
}

/// Grouping by day loses and reorders nothing: the groups hold the results
/// in their order, no group is empty, and neighbouring groups have
/// different headings.
pub proof fn lemma_groups_keep_results(labels: Seq<Seq<char>>, results: Seq<Record>)
    requires
        labels.len() == results.len(),
    ensures
        flatten_groups(runs_by_label(labels, results)) == results,
        forall|i: int|
            0 <= i < runs_by_label(labels, results).len() ==> (#[trigger] runs_by_label(
                labels,
                results,
            )[i]).1.len() > 0,
        forall|i: int|
            0 <= i < runs_by_label(labels, results).len() - 1 ==> (#[trigger] runs_by_label(
                labels,
                results,
            )[i]).0 != runs_by_label(labels, results)[i + 1].0,
    decreases results.len(),
{
    if results.len() == 0 {
        assert(runs_by_label(labels, results) =~= Seq::<(Seq<char>, Seq<Record>)>::empty());
        assert(results =~= Seq::<Record>::empty());
    } else {
        let gs = runs_by_label(labels.drop_last(), results.drop_last());
        lemma_groups_keep_results(labels.drop_last(), results.drop_last());
        let label = labels.last();
        let x = results.last();
        let r = runs_by_label(labels, results);
        if gs.len() > 0 && gs.last().0 == label {
            let merged_last = (label, gs.last().1.push(x));
            assert(r == gs.drop_last().push(merged_last));
            assert(r.drop_last() =~= gs.drop_last());
            assert(flatten_groups(gs) == flatten_groups(gs.drop_last()) + gs.last().1);
            assert(flatten_groups(r) == flatten_groups(gs.drop_last()) + gs.last().1.push(x));
            assert(flatten_groups(gs.drop_last()) + gs.last().1.push(x) =~= (flatten_groups(
                gs.drop_last(),
            ) + gs.last().1).push(x));
            assert(results.drop_last().push(x) =~= results);
            assert forall|i: int| 0 <= i < r.len() - 1 implies (#[trigger] r[i]).0 != r[i + 1].0 by {
                assert(r[i] == gs[i]);
                if i + 1 < r.len() - 1 {
                    assert(r[i + 1] == gs[i + 1]);
                } else {
                    assert(r[i + 1].0 == gs[i + 1].0);
                }
            }
            assert forall|i: int| 0 <= i < r.len() implies (#[trigger] r[i]).1.len() > 0 by {
                if i < r.len() - 1 {
                    assert(r[i] == gs[i]);
                }
            }
        } else {
            assert(r == gs.push((label, seq![x])));
            assert(r.drop_last() =~= gs);
            assert(flatten_groups(r) == flatten_groups(gs) + seq![x]);
            assert(results.drop_last() + seq![x] =~= results);
            assert forall|i: int| 0 <= i < r.len() - 1 implies (#[trigger] r[i]).0 != r[i + 1].0 by {
                assert(r[i] == gs[i]);
                if i + 1 < r.len() - 1 {
                    assert(r[i + 1] == gs[i + 1]);
                }
            }
            assert forall|i: int| 0 <= i < r.len() implies (#[trigger] r[i]).1.len() > 0 by {
                if i < r.len() - 1 {
                    assert(r[i] == gs[i]);
                }
            }
        }
    }
}

} // verus!
