use robinne::metadata_filters::RecordScope;
use robinne::metadata_filters::MetadataFilters;
use robinne::name_set::NameSet;

#[test]
fn metadata_filters_build_query_values_include_selected_persons() {
    let filters = MetadataFilters {
        selected_tags: NameSet::from_names(vec!["开发".to_string()]),
        selected_persons: NameSet::from_names(vec!["张三".to_string(), "李四".to_string()]),
        ..Default::default()
    };

    let (tags, persons) = filters.build_query_values();

    assert_eq!(tags, vec!["开发".to_string()]);
    assert_eq!(persons, vec!["张三".to_string(), "李四".to_string()]);
}

#[test]
fn metadata_filters_replace_catalog_refreshes_person_options_and_drops_missing_selection() {
    let mut filters = MetadataFilters {
        selected_tags: NameSet::from_names(vec!["保留标签".to_string(), "移除标签".to_string()]),
        selected_persons: NameSet::from_names(vec!["保留人物".to_string(), "移除人物".to_string()]),
        ..Default::default()
    };

    filters.replace_catalog(
        vec!["保留标签".to_string(), "新增标签".to_string()],
        vec!["保留人物".to_string(), "新增人物".to_string()],
    );

    assert_eq!(
        filters.available_tags,
        vec!["保留标签".to_string(), "新增标签".to_string()]
    );
    assert_eq!(
        filters.available_persons,
        vec!["保留人物".to_string(), "新增人物".to_string()]
    );
    assert_eq!(
        filters.selected_tags,
        NameSet::from_names(vec!["保留标签".to_string()])
    );
    assert_eq!(
        filters.selected_persons,
        NameSet::from_names(vec!["保留人物".to_string()])
    );
}

#[test]
fn name_set_keeps_names_sorted_and_unique() {
    let set = NameSet::from_names(vec![
        "b".to_string(),
        "a".to_string(),
        "c".to_string(),
        "a".to_string(),
    ]);
    assert_eq!(
        set.names(),
        vec!["a".to_string(), "b".to_string(), "c".to_string()]
    );
    assert_eq!(set.len(), 3);
    assert!(set.contains("b"));
    assert!(!set.contains("d"));
}

#[test]
fn name_set_toggle_twice_restores_set() {
    let mut set = NameSet::from_names(vec!["开发".to_string()]);
    let before = set.clone();
    set.toggle("测试");
    assert!(set.contains("测试"));
    set.toggle("测试");
    assert_eq!(set, before);
    set.toggle("开发");
    assert!(set.is_empty());
}

#[test]
fn name_set_insert_and_remove_report_change() {
    let mut set = NameSet::new();
    assert!(set.insert("x"));
    assert!(!set.insert("x"));
    assert!(set.remove("x"));
    assert!(!set.remove("x"));
    set.insert("y");
    set.clear();
    assert!(set.is_empty());
}

#[test]
fn metadata_filters_toggle_tag_and_person() {
    let mut filters = MetadataFilters::default();
    filters.toggle_tag("开发");
    filters.toggle_person("张三");
    let (tags, persons) = filters.build_query_values();
    assert_eq!(tags, vec!["开发".to_string()]);
    assert_eq!(persons, vec!["张三".to_string()]);
    filters.toggle_tag("开发");
    let (tags, _) = filters.build_query_values();
    assert!(tags.is_empty());
}

#[test]
fn record_scope_switches() {
    use_scope_checks();
}

fn use_scope_checks() {
    assert!(RecordScope::All.scope_includes_tasks());
    assert!(RecordScope::All.scope_includes_records());
    assert!(!RecordScope::Records.scope_includes_tasks());
    assert!(!RecordScope::Tasks.scope_includes_records());
    assert_eq!(RecordScope::Records.toggle_task_scope(), RecordScope::All);
    assert_eq!(RecordScope::All.toggle_task_scope(), RecordScope::Tasks);
    assert_eq!(RecordScope::Tasks.toggle_task_scope(), RecordScope::Tasks);
    assert_eq!(RecordScope::Tasks.toggle_record_scope(), RecordScope::All);
    assert_eq!(RecordScope::All.toggle_record_scope(), RecordScope::Records);
}
