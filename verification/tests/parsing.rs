use robinne::parsing::{compose_content_with_metadata, parse_record_fields};
use robinne::models::Priority;
use robinne::parsing::{
    parse_priority, parse_record_input, parse_tag_list, parse_tags_and_people, parse_task_input,
};
// ========== 优先级解析测试 ==========

#[test]
fn test_parse_priority_high_with_space() {
    let result = parse_priority("!! High priority task");
    assert_eq!(result.0, "High priority task");
    assert_eq!(result.1, Priority::High);
}

#[test]
fn test_parse_priority_high_without_space() {
    let result = parse_priority("!!High priority task");
    assert_eq!(result.0, "High priority task");
    assert_eq!(result.1, Priority::High);
}

#[test]
fn test_parse_priority_high_chinese_exclamation() {
    let result = parse_priority("！！Chinese exclamation");
    assert_eq!(result.0, "Chinese exclamation");
    assert_eq!(result.1, Priority::High);
}

#[test]
fn test_parse_priority_medium_with_space() {
    let result = parse_priority("! Medium priority task");
    assert_eq!(result.0, "Medium priority task");
    assert_eq!(result.1, Priority::Medium);
}

#[test]
fn test_parse_priority_medium_without_space() {
    let result = parse_priority("!Medium priority task");
    assert_eq!(result.0, "Medium priority task");
    assert_eq!(result.1, Priority::Medium);
}

#[test]
fn test_parse_priority_low() {
    let result = parse_priority("Just a normal task");
    assert_eq!(result.0, "Just a normal task");
    assert_eq!(result.1, Priority::Low);
}

#[test]
fn test_parse_priority_trims_whitespace() {
    let result = parse_priority("  !!  Task with extra spaces  ");
    assert_eq!(result.0, "Task with extra spaces");
    assert_eq!(result.1, Priority::High);
}

#[test]
fn test_parse_priority_empty_after_priority() {
    let result = parse_priority("!!");
    assert_eq!(result.0, "");
    assert_eq!(result.1, Priority::High);
}

// ========== 标签和人物解析测试 ==========

#[test]
fn test_parse_single_tag() {
    let result = parse_tags_and_people("Task content #work");
    assert_eq!(result.0, "Task content");
    assert_eq!(result.1, vec!["work"]);
    assert_eq!(result.2, Vec::<String>::new());
}

#[test]
fn test_parse_multiple_tags() {
    let result = parse_tags_and_people("Task #work #urgent #project");
    assert_eq!(result.0, "Task");
    assert_eq!(result.1, vec!["work", "urgent", "project"]);
    assert_eq!(result.2, Vec::<String>::new());
}

#[test]
fn test_parse_single_person() {
    let result = parse_tags_and_people("Meeting with @john");
    assert_eq!(result.0, "Meeting with");
    assert_eq!(result.1, Vec::<String>::new());
    assert_eq!(result.2, vec!["john"]);
}

#[test]
fn test_parse_multiple_persons() {
    let result = parse_tags_and_people("Meeting @john @jane @bob");
    assert_eq!(result.0, "Meeting");
    assert_eq!(result.1, Vec::<String>::new());
    assert_eq!(result.2, vec!["john", "jane", "bob"]);
}

#[test]
fn test_parse_tags_and_persons_together() {
    let result = parse_tags_and_people("Task #work @john #urgent @jane");
    assert_eq!(result.0, "Task");
    assert_eq!(result.1, vec!["work", "urgent"]);
    assert_eq!(result.2, vec!["john", "jane"]);
}

#[test]
fn test_parse_empty_content() {
    let result = parse_tags_and_people("#work @john");
    assert_eq!(result.0, "");
    assert_eq!(result.1, vec!["work"]);
    assert_eq!(result.2, vec!["john"]);
}

#[test]
fn test_parse_only_content() {
    let result = parse_tags_and_people("Just plain content");
    assert_eq!(result.0, "Just plain content");
    assert_eq!(result.1, Vec::<String>::new());
    assert_eq!(result.2, Vec::<String>::new());
}

#[test]
fn test_parse_unicode_tags() {
    let result = parse_tags_and_people("任务 #工作 #紧急 @张三");
    assert_eq!(result.0, "任务");
    assert_eq!(result.1, vec!["工作", "紧急"]);
    assert_eq!(result.2, vec!["张三"]);
}

#[test]
fn test_parse_empty_tag_or_person() {
    // 单独的 # 或 @ 应该被忽略
    let result = parse_tags_and_people("Task # @john #work @");
    assert_eq!(result.0, "Task");
    assert_eq!(result.1, vec!["work"]);
    assert_eq!(result.2, vec!["john"]);
}

// ========== 任务输入完整解析测试 ==========

#[test]
fn test_parse_task_input_full() {
    let result = parse_task_input("!! High priority task #work @john #urgent");
    assert_eq!(result.0, "High priority task");
    assert_eq!(result.1, Priority::High);
    assert_eq!(result.2, vec!["work", "urgent"]);
    assert_eq!(result.3, vec!["john"]);
}

#[test]
fn test_parse_task_input_no_tags() {
    let result = parse_task_input("! Medium priority task");
    assert_eq!(result.0, "Medium priority task");
    assert_eq!(result.1, Priority::Medium);
    assert_eq!(result.2, Vec::<String>::new());
    assert_eq!(result.3, Vec::<String>::new());
}

#[test]
fn test_parse_task_input_only_tags() {
    let result = parse_task_input("!! #work @john");
    assert_eq!(result.0, "");
    assert_eq!(result.1, Priority::High);
    assert_eq!(result.2, vec!["work"]);
    assert_eq!(result.3, vec!["john"]);
}

// ========== 记录输入解析测试 ==========

#[test]
fn test_parse_record_input() {
    let result = parse_record_input("Meeting notes #work @john #important");
    assert_eq!(result.0, "Meeting notes");
    assert_eq!(result.1, vec!["work", "important"]);
    assert_eq!(result.2, vec!["john"]);
}

// ========== 标签列表解析测试 ==========

#[test]
fn test_parse_tag_list_comma_separated() {
    let result = parse_tag_list("work, urgent, project");
    assert_eq!(result, vec!["work", "urgent", "project"]);
}

#[test]
fn test_parse_tag_list_chinese_comma() {
    let result = parse_tag_list("工作，紧急，项目");
    assert_eq!(result, vec!["工作", "紧急", "项目"]);
}

#[test]
fn test_parse_tag_list_space_separated() {
    let result = parse_tag_list("work urgent project");
    assert_eq!(result, vec!["work", "urgent", "project"]);
}

#[test]
fn test_parse_tag_list_mixed() {
    let result = parse_tag_list("work, urgent  project");
    assert_eq!(result, vec!["work", "urgent", "project"]);
}

#[test]
fn test_parse_tag_list_empty() {
    let result = parse_tag_list("");
    assert_eq!(result, Vec::<String>::new());
}

#[test]
fn test_parse_tag_list_with_empty_items() {
    let result = parse_tag_list("work,, urgent, , project");
    assert_eq!(result, vec!["work", "urgent", "project"]);
}

#[test]
fn composed_metadata_parses_back() {
    let composed = compose_content_with_metadata(
        "  会议纪要 #旧  ",
        &["新".to_string(), "旧".to_string()],
        &["张三".to_string()],
    );
    assert_eq!(composed, "会议纪要 #旧\n#新 #旧 @张三");
    let parsed = parse_record_fields(None, &composed);
    assert_eq!(parsed.tags, vec!["旧".to_string(), "新".to_string()]);
    assert_eq!(parsed.people, vec!["张三".to_string()]);
    assert_eq!(parsed.content, "会议纪要");
}

#[test]
fn parsed_names_are_unique() {
    let parsed = parse_record_fields(Some("#a @p"), "x #a #b #a @p @q @p");
    assert_eq!(parsed.tags, vec!["a".to_string(), "b".to_string()]);
    assert_eq!(parsed.people, vec!["p".to_string(), "q".to_string()]);
    assert_eq!(parsed.title, None);
}

#[test]
fn lists_split_at_any_white_space() {
    assert_eq!(parse_tag_list("工作\u{3000}紧急"), vec!["工作", "紧急"]);
    assert_eq!(
        robinne::parsing::parse_person_list("张三\u{a0}李四，王五\r\n赵六"),
        vec!["张三", "李四", "王五", "赵六"]
    );
}

#[test]
fn composed_plain_content_reads_back_whole() {
    let content = "第一行  内容\n\n第二行";
    let composed = compose_content_with_metadata(
        content,
        &["工作".to_string()],
        &["张三".to_string(), "李四".to_string()],
    );
    let (text, tags, people) = parse_tags_and_people(&composed);
    assert_eq!(text, parse_tags_and_people(content).0);
    assert_eq!(text, "第一行 内容\n\n第二行");
    assert_eq!(tags, vec!["工作".to_string()]);
    assert_eq!(people, vec!["张三".to_string(), "李四".to_string()]);
}
