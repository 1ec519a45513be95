use robinne::summary_guard::{api_key_check, context_check, picked_range, SummaryBlock};

#[test]
fn summaries_need_dates_a_context_with_records_and_a_key() {
    assert_eq!(picked_range(None::<u32>, Some(2)), Err(SummaryBlock::MissingStartDate));
    assert_eq!(picked_range(None::<u32>, None), Err(SummaryBlock::MissingStartDate));
    assert_eq!(picked_range(Some(1u32), None), Err(SummaryBlock::MissingEndDate));
    assert_eq!(picked_range(Some(1u32), Some(2)), Ok((1, 2)));
    assert_eq!(context_check(None), Err(SummaryBlock::NoContext));
    assert_eq!(context_check(Some(0)), Err(SummaryBlock::NoMatchingRecords));
    assert_eq!(context_check(Some(3)), Ok(()));
    assert_eq!(SummaryBlock::MissingStartDate.message(), "请选择开始日期");
    assert_eq!(SummaryBlock::MissingEndDate.message(), "请选择结束日期");
    assert_eq!(
        SummaryBlock::NoContext.message(),
        "当前没有可生成的上下文，请先调整筛选范围"
    );
    assert_eq!(
        SummaryBlock::NoMatchingRecords.message(),
        "当前筛选范围内没有命中记录，无法生成总结"
    );
    assert_eq!(api_key_check(Some("k-1".to_string()), "KEY_VAR"), Ok("k-1".to_string()));
    assert_eq!(
        api_key_check(None, "SUMMARY_KEY_VAR"),
        Err("当前协议还没有配置 API Key，请先去设置里保存本地 Key，或提供环境变量 SUMMARY_KEY_VAR".to_string())
    );
}
