use robinne::models::{Priority, Record, RecordType};
use robinne::task_filters::{
    categorize_quadrant, quadrant_stack_index, PriorityFilter, Quadrant, TagFilterMode,
    TaskFilters, TaskView,
};

const NOW: i128 = 1_700_000_000_000_000_000;
const HOUR: i128 = 3_600_000_000_000;

fn task(id: u128, priority: Option<Priority>, tags: &[&str]) -> Record {
    Record {
        id,
        record_type: RecordType::Task,
        title: Some(format!("任务{id}")),
        content: String::new(),
        tags: tags.iter().map(|t| t.to_string()).collect(),
        persons: Vec::new(),
        priority,
        status: None,
        completed_at: None,
        due_date: None,
        created_at: NOW,
        updated_at: NOW,
    }
}

#[test]
fn priority_filter_treats_missing_priority_as_low() {
    assert!(PriorityFilter::Low.matches(None));
    assert!(PriorityFilter::Low.matches(Some(Priority::Low)));
    assert!(!PriorityFilter::High.matches(Some(Priority::Medium)));
    assert!(PriorityFilter::All.matches(None));
    assert_eq!(PriorityFilter::Medium.label(), "中");
}

#[test]
fn quadrants_follow_due_date_and_priority() {
    let mut t = task(1, Some(Priority::High), &[]);
    assert_eq!(categorize_quadrant(&t, NOW), Quadrant::NotUrgentImportant);
    t.due_date = Some(NOW + 23 * HOUR);
    assert_eq!(categorize_quadrant(&t, NOW), Quadrant::UrgentImportant);
    t.due_date = Some(NOW + 24 * HOUR);
    assert_eq!(categorize_quadrant(&t, NOW), Quadrant::NotUrgentImportant);
    t.due_date = Some(NOW + 24 * HOUR - 1);
    assert_eq!(categorize_quadrant(&t, NOW), Quadrant::UrgentImportant);
    t.due_date = Some(i128::MAX);
    assert_eq!(categorize_quadrant(&t, i128::MAX - 1), Quadrant::UrgentImportant);
    assert_eq!(categorize_quadrant(&t, i128::MIN), Quadrant::NotUrgentImportant);
    t.priority = Some(Priority::Low);
    t.due_date = Some(NOW - HOUR);
    assert_eq!(categorize_quadrant(&t, NOW), Quadrant::UrgentNotImportant);
    t.due_date = None;
    assert_eq!(categorize_quadrant(&t, NOW), Quadrant::NotUrgentNotImportant);
    assert_eq!(quadrant_stack_index(Quadrant::UrgentNotImportant), 2);
    assert_eq!(Quadrant::UrgentImportant.label(), "重要且紧急");
    assert_eq!(TaskView::Matrix.label(), "矩阵视图");
}

#[test]
fn tag_filter_modes() {
    let mut filters = TaskFilters::new();
    let both = task(1, None, &["开发", "测试"]);
    let one = task(2, None, &["开发"]);
    let none = task(3, None, &[]);
    assert!(filters.matches_tag_filter(&none));
    filters.toggle_tag_filter("开发");
    filters.toggle_tag_filter("测试");
    assert!(filters.matches_tag_filter(&both));
    assert!(!filters.matches_tag_filter(&one));
    filters.toggle_tag_filter_mode();
    assert_eq!(filters.tag_filter_mode, TagFilterMode::Or);
    assert!(filters.matches_tag_filter(&one));
    assert!(!filters.matches_tag_filter(&none));
    filters.clear_tag_filters();
    assert!(filters.matches_tag_filter(&none));
    assert_eq!(TagFilterMode::And.toggle(), TagFilterMode::Or);
}

#[test]
fn filtered_tasks_keep_order_and_hide_completed() {
    let mut filters = TaskFilters::new();
    let a = task(1, Some(Priority::High), &[]);
    let mut b = task(2, Some(Priority::High), &[]);
    b.completed_at = Some(NOW);
    let c = task(3, None, &[]);
    let d = task(4, Some(Priority::High), &[]);
    filters.priority_filter = PriorityFilter::High;
    let shown = filters.get_filtered_tasks(vec![a.clone(), b.clone(), c.clone(), d.clone()]);
    assert_eq!(shown.iter().map(|t| t.id).collect::<Vec<_>>(), vec![1, 4]);
    filters.show_completed = true;
    let shown = filters.get_filtered_tasks(vec![a, b, c, d]);
    assert_eq!(shown.iter().map(|t| t.id).collect::<Vec<_>>(), vec![1, 2, 4]);
}

#[test]
fn matrix_groups_open_tasks_by_quadrant() {
    let mut filters = TaskFilters::new();
    filters.show_completed = true;
    let mut urgent = task(1, Some(Priority::High), &[]);
    urgent.due_date = Some(NOW + HOUR);
    let important = task(2, Some(Priority::High), &[]);
    let mut done = task(3, Some(Priority::High), &[]);
    done.completed_at = Some(NOW);
    let plain = task(4, None, &[]);
    let groups = filters.group_tasks_by_quadrant(vec![urgent, important, done, plain], NOW);
    assert_eq!(groups.urgent_important.len(), 1);
    assert_eq!(groups.not_urgent_important.iter().map(|t| t.id).collect::<Vec<_>>(), vec![2]);
    assert!(groups.urgent_not_important.is_empty());
    assert_eq!(groups.not_urgent_not_important[0].id, 4);
}
