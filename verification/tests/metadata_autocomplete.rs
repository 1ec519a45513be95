use robinne::metadata_autocomplete::MetadataAutocompleteAction;
use robinne::metadata_autocomplete::{
    apply_metadata_completion, detect_active_metadata_query, filter_metadata_candidates,
    ActiveMetadataQuery, MetadataAutocompleteState, MetadataCatalog, MetadataKind,
};
use robinne::models::MetadataCatalogEntry;
#[test]
fn detect_query_for_empty_marker() {
    let query = detect_active_metadata_query("计划 #", "计划 #".len()).unwrap();
    assert_eq!(
        query,
        ActiveMetadataQuery {
            kind: MetadataKind::Tag,
            range: 7..8,
            query: String::new(),
        }
    );
}

#[test]
fn detect_query_inside_token() {
    let text = "联系 @zhangsan 今天同步";
    let cursor = text.find("ang").unwrap();
    let query = detect_active_metadata_query(text, cursor).unwrap();
    assert_eq!(query.kind, MetadataKind::Person);
    assert_eq!(query.query, "zh");
}

#[test]
fn detect_query_ignores_email_like_marker() {
    let text = "alice@bob";
    assert!(detect_active_metadata_query(text, text.len()).is_none());
}

#[test]
fn detect_query_allows_marker_after_cjk_text() {
    let text = "今天联系@";
    let query = detect_active_metadata_query(text, text.len()).unwrap();
    assert_eq!(query.kind, MetadataKind::Person);
    assert_eq!(query.query, "");
}

#[test]
fn apply_completion_handles_multibyte_cursor() {
    let edit = apply_metadata_completion(
        "今天跟进 #开",
        "今天跟进 ".len().."今天跟进 #开".len(),
        MetadataKind::Tag,
        "开发",
    );
    assert_eq!(edit.text, "今天跟进 #开发 ");
    assert_eq!(edit.cursor, "今天跟进 #开发 ".len());
}

#[test]
fn apply_completion_inserts_leading_space_when_needed() {
    let edit = apply_metadata_completion(
        "今天联系@a",
        "今天联系".len().."今天联系@a".len(),
        MetadataKind::Person,
        "张三",
    );
    assert_eq!(edit.text, "今天联系 @张三 ");
    assert_eq!(edit.cursor, "今天联系 @张三 ".len());
}

#[test]
fn filter_candidates_prefers_prefix_then_usage() {
    let entries = vec![
        MetadataCatalogEntry {
            name: "开发".to_string(),
            usage_count: 5,
        },
        MetadataCatalogEntry {
            name: "协作开发".to_string(),
            usage_count: 20,
        },
        MetadataCatalogEntry {
            name: "开发测试".to_string(),
            usage_count: 8,
        },
    ];

    let filtered = filter_metadata_candidates(&entries, "开发");
    assert_eq!(filtered[0].name, "开发测试");
    assert_eq!(filtered[1].name, "开发");
    assert_eq!(filtered[2].name, "协作开发");
}

#[test]
fn autocomplete_state_applies_selected_candidate() {
    let mut state = MetadataAutocompleteState::default();
    state.set_catalog(MetadataCatalog {
        tags: vec![MetadataCatalogEntry {
            name: "开发".to_string(),
            usage_count: 3,
        }],
        persons: Vec::new(),
    });
    state.sync("今天 #开", "今天 #开".len());

    let edit = state.apply_selected("今天 #开").unwrap();
    assert_eq!(edit.text, "今天 #开发 ");
}

fn entry(name: &str, usage_count: usize) -> MetadataCatalogEntry {
    MetadataCatalogEntry {
        name: name.to_string(),
        usage_count,
    }
}

#[test]
fn moving_down_then_up_returns_to_the_same_candidate() {
    let mut state = MetadataAutocompleteState::default();
    state.set_catalog(MetadataCatalog {
        tags: vec![entry("开发", 3), entry("开会", 2), entry("开心", 1)],
        persons: Vec::new(),
    });
    let text = "今天 #开";
    state.sync(text, text.len());
    assert!(state.is_open());
    assert_eq!(state.visible_match_count(), 3);
    assert_eq!(state.selected_index(), 0);
    assert!(matches!(state.handle_key("up", text), MetadataAutocompleteAction::Moved));
    assert_eq!(state.selected_index(), 2);
    state.handle_key("down", text);
    assert_eq!(state.selected_index(), 0);
    state.handle_key("down", text);
    state.handle_key("down", text);
    state.handle_key("up", text);
    assert_eq!(state.selected_index(), 1);
    assert_eq!(state.selected_entry().unwrap().name, "开会");
    assert!(matches!(state.handle_key("escape", text), MetadataAutocompleteAction::Dismissed));
    assert!(!state.is_open());
    assert!(matches!(state.handle_key("down", text), MetadataAutocompleteAction::Ignored));
}

#[test]
fn upserted_catalog_stays_in_usage_order() {
    let mut state = MetadataAutocompleteState::default();
    state.set_catalog(MetadataCatalog {
        tags: vec![entry("b", 2), entry("a", 1)],
        persons: Vec::new(),
    });
    state.upsert_entries(&["a".to_string(), "a".to_string(), "c".to_string()], &[]);
    let text = "#";
    state.sync(text, text.len());
    let names: Vec<(String, usize)> = state
        .matches()
        .iter()
        .map(|e| (e.name.clone(), e.usage_count))
        .collect();
    assert_eq!(
        names,
        vec![("a".to_string(), 3), ("b".to_string(), 2), ("c".to_string(), 1)]
    );
}

#[test]
fn the_menu_offers_at_most_six_and_applies_by_index() {
    let mut state = MetadataAutocompleteState::default();
    state.set_catalog(MetadataCatalog {
        tags: vec![
            entry("a1", 8),
            entry("a2", 7),
            entry("a3", 6),
            entry("a4", 5),
            entry("a5", 4),
            entry("a6", 3),
            entry("a7", 2),
            entry("a8", 1),
        ],
        persons: Vec::new(),
    });
    let text = "x #a";
    state.sync(text, text.len());
    assert_eq!(state.matches().len(), 6);
    assert_eq!(state.visible_match_count(), 6);
    assert!(state.apply_index(text, 6).is_none());
    assert!(state.is_open());
    state.handle_key("down", text);
    let by_index = state.apply_index(text, state.selected_index()).unwrap();
    assert_eq!(by_index.text, "x #a2 ");
    assert!(!state.is_open());
    assert_eq!(state.selected_index(), 0);
    state.sync(text, text.len());
    state.handle_key("down", text);
    let selected = state.apply_selected(text).unwrap();
    assert_eq!(selected, by_index);
}
