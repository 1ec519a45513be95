use chrono::{DateTime, Datelike, NaiveDate, Timelike};
use robinne::dates::{
    date_group_label, format_date_group, format_duration, format_full_time, format_relative_time,
    format_time, group_results_by_date, relative_time_label, CalendarDay, LocalStamp, Weekday,
};
use robinne::models::{Record, RecordType};

fn day(year: i32, month: u32, day: u32) -> CalendarDay {
    CalendarDay { year, month, day }
}

fn weekday_of(w: chrono::Weekday) -> Weekday {
    match w {
        chrono::Weekday::Mon => Weekday::Mon,
        chrono::Weekday::Tue => Weekday::Tue,
        chrono::Weekday::Wed => Weekday::Wed,
        chrono::Weekday::Thu => Weekday::Thu,
        chrono::Weekday::Fri => Weekday::Fri,
        chrono::Weekday::Sat => Weekday::Sat,
        chrono::Weekday::Sun => Weekday::Sun,
    }
}

fn stamp_of(date: NaiveDate, hour: u32, minute: u32) -> LocalStamp {
    LocalStamp {
        date: day(date.year(), date.month(), date.day()),
        hour,
        minute,
        weekday: weekday_of(date.weekday()),
    }
}

#[test]
fn clock_and_full_times_match_strftime() {
    for (y, m, d, h, min) in [
        (2024, 3, 9, 7, 5),
        (1999, 12, 31, 23, 59),
        (5, 1, 2, 0, 0),
        (12345, 6, 7, 8, 9),
        (-3, 4, 5, 6, 7),
        (999, 10, 10, 10, 10),
    ] {
        let date = NaiveDate::from_ymd_opt(y, m, d).unwrap();
        let dt = date.and_hms_opt(h, min, 0).unwrap();
        let s = stamp_of(date, h, min);
        assert_eq!(format_full_time(s), dt.format("%Y-%m-%d %H:%M").to_string());
        assert_eq!(format_time(s), dt.format("%H:%M").to_string());
    }
}

#[test]
fn relative_times_name_today_and_yesterday() {
    let today = day(2024, 3, 1);
    let at = |d: CalendarDay| LocalStamp { date: d, hour: 9, minute: 3, weekday: Weekday::Mon };
    assert_eq!(format_relative_time(at(today), today), "今天 09:03");
    assert_eq!(format_relative_time(at(day(2024, 2, 29)), today), "昨天 09:03");
    assert_eq!(format_relative_time(at(day(2024, 2, 28)), today), "02-28 09:03");
    assert_eq!(format_relative_time(at(day(2023, 12, 31)), day(2024, 1, 1)), "昨天 09:03");
}

#[test]
fn date_groups_match_strftime_and_weekdays() {
    let today_date = NaiveDate::from_ymd_opt(2024, 5, 23).unwrap();
    let today = day(2024, 5, 23);
    let monday = NaiveDate::from_ymd_opt(2024, 5, 20).unwrap();
    let yesterday = NaiveDate::from_ymd_opt(2024, 5, 22).unwrap();
    assert_eq!(format_date_group(stamp_of(today_date, 1, 0), today), "今天");
    assert_eq!(format_date_group(stamp_of(yesterday, 1, 0), today), "昨天");
    assert_eq!(format_date_group(stamp_of(monday, 1, 0), today), "周一");
    let last_sunday = NaiveDate::from_ymd_opt(2024, 5, 19).unwrap();
    assert_eq!(
        format_date_group(stamp_of(last_sunday, 1, 0), today),
        last_sunday.format("%-m月%-d日").to_string()
    );
    let earlier = NaiveDate::from_ymd_opt(2024, 2, 3).unwrap();
    assert_eq!(
        format_date_group(stamp_of(earlier, 1, 0), today),
        earlier.format("%-m月%-d日").to_string()
    );
    let last_year = NaiveDate::from_ymd_opt(2023, 11, 30).unwrap();
    assert_eq!(
        format_date_group(stamp_of(last_year, 1, 0), today),
        last_year.format("%Y年%-m月%-d日").to_string()
    );
    let new_year = day(2025, 1, 1);
    let dec_30 = NaiveDate::from_ymd_opt(2024, 12, 30).unwrap();
    assert_eq!(
        format_date_group(stamp_of(dec_30, 1, 0), new_year),
        "2024年12月30日"
    );
}

fn chrono_instant(nanos: i128) -> DateTime<chrono::Utc> {
    let seconds = nanos.div_euclid(1_000_000_000) as i64;
    let subsec = nanos.rem_euclid(1_000_000_000) as u32;
    DateTime::from_timestamp(seconds, subsec).unwrap()
}

fn chrono_duration_text(start: i128, now: i128) -> String {
    let start = chrono_instant(start);
    let now = chrono_instant(now);
    let duration = now.signed_duration_since(start);
    let hours = duration.num_hours();
    let minutes = duration.num_minutes() % 60;
    if hours > 0 {
        format!("{}小时{}分", hours, minutes)
    } else {
        format!("{}分钟", minutes)
    }
}

#[test]
fn durations_match_chrono_arithmetic() {
    const MS: i128 = 1_000_000;
    let base: i128 = 1_700_000_000_000 * MS;
    for elapsed in [
        0i128,
        59_999 * MS,
        60_000 * MS,
        60_000 * MS - 1,
        3_599_999 * MS,
        3_600_000 * MS,
        3_600_000 * MS - 1,
        7_380_000 * MS,
        -1,
        -59_999 * MS,
        -60_000 * MS - 1,
        -61_000 * MS,
        -7_380_500 * MS,
        100_000_000_000 * MS,
    ] {
        assert_eq!(
            format_duration(base, base + elapsed),
            chrono_duration_text(base, base + elapsed),
            "elapsed {elapsed}"
        );
    }
    assert_eq!(format_duration(0, 7_380_000 * MS), "2小时3分");
    assert_eq!(format_duration(0, 125_000 * MS), "2分钟");
    assert_eq!(format_duration(0, 3_600_000 * MS - 1), "59分钟");
    let seconds = u128::MAX / 1_000_000_000;
    assert_eq!(
        format_duration(i128::MIN, i128::MAX),
        format!("{}小时{}分", seconds / 3600, (seconds / 60) % 60)
    );
}

fn note(id: u128) -> Record {
    Record {
        id,
        record_type: RecordType::Note,
        title: None,
        content: String::new(),
        tags: Vec::new(),
        persons: Vec::new(),
        priority: None,
        status: None,
        completed_at: None,
        due_date: None,
        created_at: 0,
        updated_at: 0,
    }
}

#[test]
fn results_group_by_neighbouring_days() {
    let labels: Vec<String> = ["今天", "今天", "昨天", "今天"].iter().map(|s| s.to_string()).collect();
    let groups = group_results_by_date(vec![note(1), note(2), note(3), note(4)], labels);
    let shape: Vec<(String, Vec<u128>)> = groups
        .iter()
        .map(|(label, records)| (label.clone(), records.iter().map(|r| r.id).collect()))
        .collect();
    assert_eq!(
        shape,
        vec![
            ("今天".to_string(), vec![1, 2]),
            ("昨天".to_string(), vec![3]),
            ("今天".to_string(), vec![4]),
        ]
    );
    assert!(group_results_by_date(Vec::new(), Vec::new()).is_empty());
}

#[test]
fn stamps_from_chrono_datetimes() {
    let dt = NaiveDate::from_ymd_opt(2024, 2, 29).unwrap().and_hms_opt(13, 7, 0).unwrap();
    let s = stamp_of(dt.date(), dt.hour(), dt.minute());
    assert_eq!(s.weekday, Weekday::Thu);
    assert_eq!(format_time(s), "13:07");
}

#[test]
fn labels_follow_the_given_day_before_and_weeks() {
    let today = day(2024, 5, 23);
    let at = |d: CalendarDay, w: Weekday| LocalStamp { date: d, hour: 8, minute: 30, weekday: w };
    let s = at(day(2024, 5, 22), Weekday::Wed);
    assert_eq!(relative_time_label(s, today, Some((2024, 5, 22))), "昨天 08:30");
    assert_eq!(relative_time_label(s, today, None), "05-22 08:30");
    assert_eq!(relative_time_label(s, today, Some((2024, 5, 21))), "05-22 08:30");
    assert_eq!(relative_time_label(at(today, Weekday::Thu), today, None), "今天 08:30");

    assert_eq!(date_group_label(s, today, Some((2024, 5, 22)), None, None), "昨天");
    assert_eq!(
        date_group_label(s, today, None, Some((2024, 21)), Some((2024, 21))),
        "周三"
    );
    assert_eq!(
        date_group_label(s, today, None, Some((2024, 20)), Some((2024, 21))),
        "5月22日"
    );
    assert_eq!(date_group_label(s, today, None, None, None), "5月22日");
    let old = at(day(2023, 5, 22), Weekday::Mon);
    assert_eq!(
        date_group_label(old, today, None, Some((2024, 21)), Some((2024, 21))),
        "2023年5月22日"
    );
    assert_eq!(date_group_label(at(today, Weekday::Thu), today, None, None, None), "今天");
}
