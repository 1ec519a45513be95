use robinne::models::{Record, RecordType, TaskStatus};
use robinne::tasks::{
    completed_at_after_save, get_node_icon, parse_clock_time, parse_reminder_time, parse_u32,
    reminder_time_error, review_icon,
    task_status_label,
};

fn record(record_type: RecordType, status: Option<TaskStatus>, completed: bool) -> Record {
    Record {
        id: 1,
        record_type,
        title: None,
        content: String::new(),
        tags: Vec::new(),
        persons: Vec::new(),
        priority: None,
        status,
        completed_at: if completed { Some(5) } else { None },
        due_date: None,
        created_at: 0,
        updated_at: 0,
    }
}

#[test]
fn status_labels_and_icons() {
    assert_eq!(task_status_label(TaskStatus::Todo), "待办");
    assert_eq!(task_status_label(TaskStatus::Cancelled), "已取消");
    assert_eq!(get_node_icon(&record(RecordType::Task, Some(TaskStatus::InProgress), false)), "▶");
    assert_eq!(get_node_icon(&record(RecordType::Task, Some(TaskStatus::Done), true)), "☑");
    assert_eq!(get_node_icon(&record(RecordType::Task, None, false)), "◎");
    assert_eq!(get_node_icon(&record(RecordType::Idea, None, false)), "💡");
    assert_eq!(review_icon(&record(RecordType::Task, Some(TaskStatus::Cancelled), true)), "✕");
    assert_eq!(review_icon(&record(RecordType::Task, Some(TaskStatus::Done), true)), "☑");
    assert_eq!(review_icon(&record(RecordType::Task, Some(TaskStatus::Todo), false)), "▶");
    assert_eq!(review_icon(&record(RecordType::Event, None, false)), "📝");
}

#[test]
fn completion_time_follows_the_saved_status() {
    assert_eq!(completed_at_after_save(TaskStatus::Done, None, 9), Some(9));
    assert_eq!(completed_at_after_save(TaskStatus::Done, Some(3), 9), Some(3));
    assert_eq!(completed_at_after_save(TaskStatus::Cancelled, None, 9), Some(9));
    assert_eq!(completed_at_after_save(TaskStatus::InProgress, Some(3), 9), None);
    let first = completed_at_after_save(TaskStatus::Done, None, 9);
    assert_eq!(completed_at_after_save(TaskStatus::Done, first, 12), Some(9));
}

#[test]
fn u32_parsing_matches_str_parse() {
    for text in [
        "", "+", "+5", "-5", "007", "4294967295", "4294967296", " 5", "5 ", "１", "00000000000000000001",
        "12a", "99999999999999999999",
    ] {
        let chars: Vec<char> = text.chars().collect();
        assert_eq!(parse_u32(&chars), text.parse::<u32>().ok(), "{text:?}");
    }
}

#[test]
fn clock_times_parse_hour_and_minute() {
    assert_eq!(parse_clock_time("09:30"), Some((9, 30)));
    assert_eq!(parse_clock_time("9"), Some((9, 0)));
    assert_eq!(parse_clock_time("x:15"), Some((0, 15)));
    assert_eq!(parse_clock_time("23:59:59"), Some((23, 59)));
    assert_eq!(parse_clock_time("24:00"), None);
    assert_eq!(parse_clock_time("12:60"), None);
    assert_eq!(parse_clock_time(""), Some((0, 0)));
}

#[test]
fn reminder_times_are_h_mm_or_hh_mm() {
    assert_eq!(parse_reminder_time("14:30"), Some((14, 30)));
    assert_eq!(parse_reminder_time("9:05"), Some((9, 5)));
    assert_eq!(parse_reminder_time("09:05"), Some((9, 5)));
    assert_eq!(parse_reminder_time("23:59"), Some((23, 59)));
    assert_eq!(parse_reminder_time("+9:05"), Some((9, 5)));
    assert_eq!(parse_reminder_time("+12:05"), None);
    assert_eq!(parse_reminder_time("1:+5"), Some((1, 5)));
    for bad in ["9", "9:5", "12:30:45", "24:00", "12:60", ":30", "123:00", "ab:cd", "１:30", "12:３"] {
        assert_eq!(parse_reminder_time(bad), None, "{bad}");
    }
    assert_eq!(parse_clock_time("9:5"), Some((9, 5)));
    assert_eq!(reminder_time_error(), "时间格式无效，请输入 HH:MM（例 14:30）");
}
