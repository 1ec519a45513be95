use robinne::search_requests::SearchRequests;
use robinne::models::{Priority, Record, RecordType, TaskStatus};
use robinne::name_set::NameSet;
use robinne::search::{
    apply_advanced_filter_toggle, deletion_label, detail_target_for, get_record_type_label,
    is_record_selected,
    matches_advanced_filter, matches_completion_visibility, next_browse_filter,
    remove_record_from_results, sort_results_by_created_at_desc, AdvancedFilterMode,
    BrowseFilter, ResultsSource, SearchDetailTarget, SearchFilterType, SearchFilters,
};

const NOW: i128 = 1_700_000_000_000_000_000;
const DAY: i128 = 86_400_000_000_000;

fn task(id: u128, title: &str, content: &str, priority: Priority) -> Record {
    Record {
        id,
        record_type: RecordType::Task,
        title: Some(title.to_string()),
        content: content.to_string(),
        tags: Vec::new(),
        persons: Vec::new(),
        priority: Some(priority),
        status: None,
        completed_at: None,
        due_date: None,
        created_at: NOW,
        updated_at: NOW,
    }
}

fn note(id: u128, content: &str) -> Record {
    Record {
        id,
        record_type: RecordType::Note,
        title: None,
        content: content.to_string(),
        tags: Vec::new(),
        persons: Vec::new(),
        priority: None,
        status: None,
        completed_at: None,
        due_date: None,
        created_at: NOW,
        updated_at: NOW,
    }
}

fn names(list: &[&str]) -> NameSet {
    NameSet::from_names(list.iter().map(|s| s.to_string()).collect())
}

#[test]
fn test_next_browse_filter_supports_single_select_toggle() {
    assert_eq!(
        next_browse_filter(None, BrowseFilter::Tag("开发".to_string())),
        Some(BrowseFilter::Tag("开发".to_string()))
    );
    assert_eq!(
        next_browse_filter(
            Some(&BrowseFilter::Tag("开发".to_string())),
            BrowseFilter::Tag("开发".to_string())
        ),
        None
    );
    assert_eq!(
        next_browse_filter(
            Some(&BrowseFilter::Tag("开发".to_string())),
            BrowseFilter::Tag("测试".to_string())
        ),
        Some(BrowseFilter::Tag("测试".to_string()))
    );
    assert_eq!(
        next_browse_filter(
            Some(&BrowseFilter::Tag("开发".to_string())),
            BrowseFilter::Person("张三".to_string())
        ),
        Some(BrowseFilter::Person("张三".to_string()))
    );
}

#[test]
fn test_matches_advanced_filter_in_and_mode() {
    let mut record = task(1, "搜索高级筛选", "测试内容", Priority::Medium);
    record.tags = vec!["开发".to_string(), "测试".to_string()];
    record.persons = vec!["张三".to_string()];

    let selected_tags = names(&["开发", "测试"]);
    let selected_persons = names(&["张三"]);
    assert!(matches_advanced_filter(
        &record,
        &selected_tags,
        &selected_persons,
        AdvancedFilterMode::And,
    ));

    let missing_persons = names(&["李四"]);
    assert!(!matches_advanced_filter(
        &record,
        &selected_tags,
        &missing_persons,
        AdvancedFilterMode::And,
    ));
}

#[test]
fn test_matches_advanced_filter_in_or_mode() {
    let mut record = task(1, "搜索高级筛选", "测试内容", Priority::Medium);
    record.tags = vec!["开发".to_string()];
    record.persons = vec!["张三".to_string()];

    let selected_tags = names(&["测试"]);
    let selected_persons = names(&["张三"]);
    assert!(matches_advanced_filter(
        &record,
        &selected_tags,
        &selected_persons,
        AdvancedFilterMode::Or,
    ));

    let unmatched_persons = names(&["李四"]);
    assert!(!matches_advanced_filter(
        &record,
        &selected_tags,
        &unmatched_persons,
        AdvancedFilterMode::Or,
    ));
}

#[test]
fn test_apply_advanced_filter_toggle_promotes_single_filter_and_clears_on_disable() {
    let (browse_filter, selected_tags, selected_persons, filter_mode) =
        apply_advanced_filter_toggle(
            Some(&BrowseFilter::Tag("开发".to_string())),
            true,
            &NameSet::new(),
            &NameSet::new(),
            AdvancedFilterMode::Or,
        );
    assert_eq!(browse_filter, None);
    assert_eq!(selected_tags, names(&["开发"]));
    assert!(selected_persons.is_empty());
    assert_eq!(filter_mode, AdvancedFilterMode::Or);

    let (browse_filter, selected_tags, selected_persons, filter_mode) =
        apply_advanced_filter_toggle(
            None,
            false,
            &selected_tags,
            &selected_persons,
            filter_mode,
        );
    assert_eq!(browse_filter, None);
    assert!(selected_tags.is_empty());
    assert!(selected_persons.is_empty());
    assert_eq!(filter_mode, AdvancedFilterMode::And);
}

#[test]
fn test_sort_results_by_created_at_desc_keeps_latest_first() {
    let mut oldest = task(1, "最早", "最早内容", Priority::Low);
    oldest.created_at = NOW - 3 * DAY;
    oldest.updated_at = oldest.created_at;

    let mut newest = task(2, "最新", "最新内容", Priority::High);
    newest.created_at = NOW;
    newest.updated_at = newest.created_at;

    let mut middle = task(3, "中间", "中间内容", Priority::Medium);
    middle.created_at = NOW - DAY;
    middle.updated_at = middle.created_at;

    let mut results = vec![middle.clone(), oldest.clone(), newest.clone()];
    sort_results_by_created_at_desc(&mut results);

    assert_eq!(
        results
            .iter()
            .map(|record| record.title.as_deref().unwrap())
            .collect::<Vec<_>>(),
        vec!["最新", "中间", "最早"]
    );
}

#[test]
fn test_detail_target_routes_tasks_and_non_tasks_to_correct_sidebar() {
    let record = task(1, "任务", "内容", Priority::Medium);
    assert_eq!(detail_target_for(&record), SearchDetailTarget::Task);

    for record_type in [RecordType::Note, RecordType::Idea, RecordType::Event] {
        let mut record = note(2, "记录");
        record.record_type = record_type;
        assert_eq!(detail_target_for(&record), SearchDetailTarget::Record);
    }
}

#[test]
fn test_remove_record_from_results_removes_matching_record_only() {
    let mut records = vec![
        task(11, "任务 A", "内容", Priority::Low),
        task(12, "任务 B", "内容", Priority::Medium),
    ];
    let removed_id = records[0].id;
    let kept_id = records[1].id;

    assert!(remove_record_from_results(&mut records, removed_id));
    assert_eq!(records.len(), 1);
    assert_eq!(records[0].id, kept_id);
    assert!(!remove_record_from_results(&mut records, 99));
}

#[test]
fn test_matches_completion_visibility_hides_completed_tasks_by_default() {
    let mut completed_task = task(1, "已完成", "内容", Priority::Low);
    completed_task.completed_at = Some(NOW);
    completed_task.status = Some(TaskStatus::Done);

    let active_task = task(2, "进行中", "内容", Priority::Medium);
    let note = note(3, "普通记录");

    assert!(!matches_completion_visibility(false, &completed_task));
    assert!(matches_completion_visibility(true, &completed_task));
    assert!(matches_completion_visibility(false, &active_task));
    assert!(matches_completion_visibility(false, &note));
}

#[test]
fn sort_keeps_equal_records_in_their_order_and_breaks_ties_by_update_then_id() {
    let mut a = note(5, "a");
    a.updated_at = NOW + 1;
    let b = note(7, "b");
    let c = note(6, "c");
    let mut results = vec![c.clone(), b.clone(), a.clone()];
    sort_results_by_created_at_desc(&mut results);
    let ids: Vec<u128> = results.iter().map(|r| r.id).collect();
    assert_eq!(ids, vec![5, 7, 6]);
}

#[test]
fn filters_show_by_kind_completion_and_browse_filter() {
    let mut filters = SearchFilters::new();
    let mut tagged = task(1, "t", "x", Priority::Low);
    tagged.tags = vec!["开发".to_string()];
    let mut done = task(2, "d", "x", Priority::Low);
    done.completed_at = Some(NOW);
    done.tags = vec!["开发".to_string()];
    let mut idea = note(3, "i");
    idea.record_type = RecordType::Idea;

    assert!(filters.should_show_record(&tagged));
    assert!(!filters.should_show_record(&done));
    filters.filter_type = SearchFilterType::Idea;
    assert!(!filters.should_show_record(&tagged));
    assert!(filters.should_show_record(&idea));
    filters.filter_type = SearchFilterType::All;
    filters.toggle_tag("开发");
    assert!(filters.should_show_record(&tagged));
    assert!(!filters.should_show_record(&idea));
    filters.toggle_tag("开发");
    assert_eq!(filters.browse_filter, None);
    assert!(filters.should_show_record(&idea));
}

#[test]
fn filtered_results_keep_shown_records_newest_first() {
    let mut filters = SearchFilters::new();
    filters.filter_type = SearchFilterType::Task;
    let mut old_task = task(1, "old", "x", Priority::Low);
    old_task.created_at = NOW - DAY;
    let new_task = task(2, "new", "x", Priority::Low);
    let a_note = note(3, "n");
    let shown = filters.get_filtered_results(vec![old_task, a_note, new_task]);
    let ids: Vec<u128> = shown.iter().map(|r| r.id).collect();
    assert_eq!(ids, vec![2, 1]);
}

#[test]
fn advanced_mode_takes_over_the_browse_filter() {
    let mut filters = SearchFilters::new();
    filters.toggle_person("张三");
    assert_eq!(
        filters.browse_filter,
        Some(BrowseFilter::Person("张三".to_string()))
    );
    assert!(filters.set_advanced_filter_enabled(true));
    assert!(!filters.set_advanced_filter_enabled(true));
    assert_eq!(filters.browse_filter, None);
    assert_eq!(filters.selected_persons, names(&["张三"]));
    filters.toggle_tag("开发");
    assert_eq!(filters.selected_tags, names(&["开发"]));
    filters.toggle_advanced_filter_mode();
    assert_eq!(filters.filter_mode, AdvancedFilterMode::Or);
    assert!(filters.set_advanced_filter_enabled(false));
    assert!(filters.selected_tags.is_empty());
    assert!(filters.selected_persons.is_empty());
    assert_eq!(filters.filter_mode, AdvancedFilterMode::And);
}

#[test]
fn results_source_follows_query_then_filters() {
    let mut filters = SearchFilters::new();
    assert_eq!(filters.results_source(), ResultsSource::Nothing);
    filters.query = "  会议 ".to_string();
    assert_eq!(
        filters.results_source(),
        ResultsSource::Search("会议".to_string())
    );
    filters.query = "   ".to_string();
    filters.toggle_tag("开发");
    assert_eq!(
        filters.results_source(),
        ResultsSource::Tag("开发".to_string())
    );
    filters.set_advanced_filter_enabled(true);
    assert_eq!(filters.results_source(), ResultsSource::AllRecords);
    filters.clear_tag_filters();
    assert_eq!(filters.results_source(), ResultsSource::Nothing);
    assert!(!filters.has_active_browse_filters());
}

#[test]
fn labels_of_modes_kinds_and_records() {
    assert_eq!(AdvancedFilterMode::And.label(), "AND");
    assert_eq!(AdvancedFilterMode::Or.toggle(), AdvancedFilterMode::And);
    assert_eq!(SearchFilterType::Note.label(), "记录");
    assert!(SearchFilterType::All.matches(&RecordType::Event));
    assert!(!SearchFilterType::Task.matches(&RecordType::Note));
    let mut r = note(1, "x");
    assert_eq!(get_record_type_label(&r), "笔记");
    r.record_type = RecordType::Event;
    assert_eq!(get_record_type_label(&r), "事件");
}

#[test]
fn selection_follows_the_sidebar_of_the_record_kind() {
    let t = task(5, "t", "x", Priority::Low);
    let n = note(6, "n");
    assert!(is_record_selected(&t, Some(5), None));
    assert!(!is_record_selected(&t, None, Some(5)));
    assert!(is_record_selected(&n, None, Some(6)));
    assert!(!is_record_selected(&n, Some(6), None));
    assert_eq!(deletion_label(&t), "任务");
    assert_eq!(deletion_label(&n), "记录");
}

#[test]
fn sidebars_close_when_their_item_is_filtered_out() {
    let mut filters = SearchFilters::new();
    let t = task(5, "t", "x", Priority::Low);
    let n = note(6, "n");
    let results = vec![t, n];
    assert_eq!(filters.sidebars_to_dismiss(&results, Some(5), Some(6)), (false, false));
    assert_eq!(filters.sidebars_to_dismiss(&results, Some(6), Some(5)), (true, true));
    assert_eq!(filters.sidebars_to_dismiss(&results, None, None), (false, false));
    filters.filter_type = SearchFilterType::Note;
    assert_eq!(filters.sidebars_to_dismiss(&results, Some(5), Some(6)), (true, false));
}

#[test]
fn chips_show_the_browse_filter_or_the_selection() {
    let mut f = SearchFilters::new();
    assert!(!f.is_tag_chip_selected("工作"));
    f.toggle_tag("工作");
    assert!(f.is_tag_chip_selected("工作"));
    assert!(!f.is_person_chip_selected("工作"));
    f.toggle_person("张三");
    assert!(f.is_person_chip_selected("张三"));
    assert!(!f.is_tag_chip_selected("工作"));
    f.toggle_person("张三");
    assert!(!f.is_person_chip_selected("张三"));

    let mut g = SearchFilters::new();
    g.advanced_filter_enabled = true;
    g.toggle_tag("a");
    g.toggle_tag("b");
    g.toggle_person("p");
    assert!(g.is_tag_chip_selected("a"));
    assert!(g.is_tag_chip_selected("b"));
    assert!(g.is_person_chip_selected("p"));
    g.toggle_tag("a");
    assert!(!g.is_tag_chip_selected("a"));
    assert!(g.is_tag_chip_selected("b"));
}

#[test]
fn replies_to_superseded_searches_are_dropped() {
    let mut requests = SearchRequests::new();
    let first = requests.begin_refresh(&ResultsSource::Search("会议".to_string()));
    assert!(requests.is_searching);
    let second = requests.begin_refresh(&ResultsSource::AllRecords);
    assert_eq!(second, first + 1);
    assert!(!requests.finish(first));
    assert!(requests.is_searching);
    assert!(requests.finish(second));
    assert!(!requests.is_searching);
    let third = requests.begin_refresh(&ResultsSource::Nothing);
    assert!(!requests.is_searching);
    assert!(requests.is_current(third));
    assert!(!requests.is_current(second));
}

#[test]
fn sort_orders_records_created_a_fraction_of_a_millisecond_apart() {
    let mut earlier = note(1, "earlier");
    earlier.updated_at = NOW + DAY;
    let mut later = note(2, "later");
    later.created_at = NOW + 300_000;
    let mut results = vec![earlier, later];
    sort_results_by_created_at_desc(&mut results);
    let ids: Vec<u128> = results.iter().map(|r| r.id).collect();
    assert_eq!(ids, vec![2, 1]);
}
