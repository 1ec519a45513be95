use robinne::models::{Record, RecordType};
use robinne::search::SearchFilters;

fn filters(query: &str) -> SearchFilters {
    let mut f = SearchFilters::new();
    f.query = query.to_string();
    f
}

fn record(title: Option<&str>, content: &str) -> Record {
    Record {
        id: 1,
        record_type: RecordType::Note,
        title: title.map(|t| t.to_string()),
        content: content.to_string(),
        tags: Vec::new(),
        persons: Vec::new(),
        priority: None,
        status: None,
        completed_at: None,
        due_date: None,
        created_at: 0,
        updated_at: 0,
    }
}

#[test]
fn query_terms_are_the_words_of_the_query() {
    assert_eq!(
        filters("  会议  纪要 ").query_terms(),
        vec!["会议".to_string(), "纪要".to_string()]
    );
    assert!(filters("   ").query_terms().is_empty());
}

#[test]
fn match_ranges_ignore_case_and_use_byte_offsets() {
    assert_eq!(filters("ab").text_match_ranges("xAbyab"), vec![(1, 3), (4, 6)]);
    assert_eq!(filters("会议").text_match_ranges("今天会议"), vec![(6, 12)]);
    assert!(filters("zz").text_match_ranges("abc").is_empty());
}

#[test]
fn match_ranges_merge_touching_and_overlapping_matches() {
    assert_eq!(filters("aa a").text_match_ranges("aaa"), vec![(0, 3)]);
    assert_eq!(filters("b a").text_match_ranges("ab ab"), vec![(0, 2), (3, 5)]);
}

#[test]
fn first_match_char_index_takes_the_earliest_word() {
    assert_eq!(filters("b c").first_match_char_index("aXbc"), Some(2));
    assert_eq!(filters("C").first_match_char_index("aXbc"), Some(3));
    assert_eq!(filters("q").first_match_char_index("aXbc"), None);
}

#[test]
fn excerpt_keeps_a_window_around_the_match() {
    assert_eq!(filters("7").excerpt_around_match("0123456789", 4), "…6789");
    assert_eq!(filters("3").excerpt_around_match("0123456789", 4), "…2345…");
    assert_eq!(filters("x").excerpt_around_match("0123456789", 4), "0123…");
    assert_eq!(filters("x").excerpt_around_match("0123", 4), "0123");
}

#[test]
fn body_preview_drops_the_title_line() {
    let f = filters("正文");
    assert_eq!(
        f.body_preview(&record(Some("标题"), "标题\n正文内容")),
        Some("正文内容".to_string())
    );
    assert_eq!(f.body_preview(&record(Some("标题"), "  标题  \n")), None);
    assert_eq!(
        f.body_preview(&record(None, "  只有正文 ")),
        Some("只有正文".to_string())
    );
    assert_eq!(
        f.body_preview(&record(Some("x"), "a\r\nb\r\n")),
        Some("a\nb".to_string())
    );
}

#[test]
fn checked_body_preview_refuses_a_match_inside_a_character() {
    let f = filters("中");
    let long = format!("Ⱥx{}", "中".repeat(100));
    assert_eq!(f.checked_body_preview(&record(None, &long)), None);
    let fine = format!("ax{}", "中".repeat(100));
    let preview = f.checked_body_preview(&record(None, &fine));
    assert_eq!(preview, Some(f.body_preview(&record(None, &fine))));
    assert!(f.match_starts_fit_in(&fine));
    assert!(!f.match_starts_fit_in(&long));
}

#[test]
fn body_preview_with_a_blank_title_still_splits_lines() {
    let f = filters("x");
    assert_eq!(
        f.body_preview(&record(Some("  "), "a\r\nb")),
        Some("a\nb".to_string())
    );
    assert_eq!(
        f.body_preview(&record(None, "a\r\nb")),
        Some("a\r\nb".to_string())
    );
}
