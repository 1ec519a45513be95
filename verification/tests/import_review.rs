use robinne::import_review::{
    import_apply_enabled, plan_import, ConflictChoice, ConflictResolution, ImportMode,
    ImportPlanError,
};
use std::collections::HashMap;

#[test]
fn apply_needs_a_preview_and_in_a_merge_every_choice() {
    let mut choices = HashMap::new();
    let conflicts = [7u128, 9u128];
    assert!(!import_apply_enabled(None, ImportMode::ReplaceWithBackup, &choices));
    assert!(import_apply_enabled(Some(&conflicts), ImportMode::ReplaceWithBackup, &choices));
    assert!(!import_apply_enabled(Some(&conflicts), ImportMode::Merge, &choices));
    choices.insert(7u128, ConflictChoice::KeepLocal);
    assert!(!import_apply_enabled(Some(&conflicts), ImportMode::Merge, &choices));
    choices.insert(9u128, ConflictChoice::UseImported);
    assert!(import_apply_enabled(Some(&conflicts), ImportMode::Merge, &choices));
    assert!(import_apply_enabled(Some(&[]), ImportMode::Merge, &HashMap::new()));
}

#[test]
fn plan_lists_the_chosen_resolutions_in_conflict_order() {
    let mut choices = HashMap::new();
    let conflicts = [9u128, 7u128, 5u128];
    choices.insert(7u128, ConflictChoice::KeepLocal);
    choices.insert(9u128, ConflictChoice::UseImported);
    let err = plan_import(&conflicts, ImportMode::Merge, &choices).unwrap_err();
    assert_eq!(err, ImportPlanError::UnresolvedConflicts);
    assert_eq!(err.message(), "请先为所有冲突记录选择保留本地还是使用导入数据");
    let plan = plan_import(&conflicts, ImportMode::ReplaceWithBackup, &choices).unwrap();
    assert_eq!(
        plan,
        vec![
            ConflictResolution { record_id: 9, choice: ConflictChoice::UseImported },
            ConflictResolution { record_id: 7, choice: ConflictChoice::KeepLocal },
        ]
    );
    choices.insert(5u128, ConflictChoice::KeepLocal);
    let merged = plan_import(&conflicts, ImportMode::Merge, &choices).unwrap();
    assert_eq!(merged.len(), 3);
    assert_eq!(merged[2], ConflictResolution { record_id: 5, choice: ConflictChoice::KeepLocal });
}
