use robinne::record_display::priority_label;
use robinne::models::{Priority, Record, RecordType};
use robinne::record_display::{
    display_text, estimate_line_count, get_note_display, task_display_name, task_preview,
};
use robinne::text_preview::{normalize_text, truncate_middle, truncate_preview, truncate_text};

fn record(title: Option<&str>, content: &str) -> Record {
    Record {
        id: 1,
        record_type: RecordType::Task,
        title: title.map(|t| t.to_string()),
        content: content.to_string(),
        tags: Vec::new(),
        persons: Vec::new(),
        priority: Some(Priority::Low),
        status: None,
        completed_at: None,
        due_date: None,
        created_at: 0,
        updated_at: 0,
    }
}

#[test]
fn normalize_and_truncate_text() {
    assert_eq!(normalize_text("  a \t b\n\nc  "), "a b c");
    assert_eq!(truncate_text("  a   b  ", 3), "a b");
    assert_eq!(truncate_text("abcdef", 3), "abc...");
    assert_eq!(truncate_text("一二三四", 2), "一二...");
}

#[test]
fn preview_flattens_lines_and_marks_a_cut() {
    assert_eq!(truncate_preview("a\nb", 5), "a b");
    assert_eq!(truncate_preview("abcdef", 4), "abcd…");
    assert_eq!(truncate_preview("abcd", 4), "abcd");
}

#[test]
fn middle_truncation_keeps_both_ends() {
    assert_eq!(truncate_middle("0123456789", 6), "01…789");
    assert_eq!(truncate_middle("0123456789abcdef", 7), "01…cdef");
    assert_eq!(truncate_middle("short", 18), "short");
}

#[test]
fn display_names_fall_back_to_the_first_line() {
    assert_eq!(display_text(&record(Some("标题"), "内容"), 10), "标题");
    assert_eq!(display_text(&record(Some("  "), "\n  第一行 \n第二行"), 10), "第一行");
    assert_eq!(display_text(&record(None, " \n "), 10), "无标题");
    assert_eq!(display_text(&record(Some("一二三四五"), ""), 3), "一二三...");
    assert_eq!(task_display_name(&record(None, "")), "无标题任务");
    assert_eq!(task_display_name(&record(Some("  a   b "), "")), "a b");
}

#[test]
fn note_display_shows_title_and_second_line() {
    let (title, preview) = get_note_display(&record(None, "第一行\n\n  第二  行  \n第三行"));
    assert_eq!(title, "第一行");
    assert_eq!(preview, "第二 行");
    let (title, preview) = get_note_display(&record(Some("标题"), "只有一行"));
    assert_eq!(title, "标题");
    assert_eq!(preview, "");
}

#[test]
fn task_preview_hides_content_equal_to_title() {
    assert_eq!(task_preview(&record(Some("买 菜"), "买  菜")), "");
    assert_eq!(task_preview(&record(Some("买菜"), "  ")), "");
    assert_eq!(task_preview(&record(Some("买菜"), "去 超市\n买菜")), "去 超市 买菜");
    assert_eq!(task_preview(&record(None, "内容")), "内容");
}

#[test]
fn line_estimate_counts_breaks_and_width() {
    assert_eq!(estimate_line_count(""), 1);
    assert_eq!(estimate_line_count("a"), 1);
    assert_eq!(estimate_line_count(&"a".repeat(45)), 1);
    assert_eq!(estimate_line_count(&"a".repeat(46)), 2);
    assert_eq!(estimate_line_count(&"中".repeat(23)), 2);
    assert_eq!(estimate_line_count("a\nb"), 2);
}

#[test]
fn priority_labels() {
    let mut r = record(None, "");
    r.priority = Some(Priority::High);
    assert_eq!(priority_label(&r), "高");
    r.priority = Some(Priority::Medium);
    assert_eq!(priority_label(&r), "中");
    r.priority = None;
    assert_eq!(priority_label(&r), "低");
}
