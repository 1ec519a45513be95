use robinne::quick_add::{
    expire_escape_confirmation, handle_escape, resolve_quick_add_mode,
    resolve_quick_add_presentation, should_hide_app_after_global_quick_add_launch,
    should_hide_app_after_quick_add_close, submit_decision, visible_attachment_rows,
    visible_input_rows, visible_status_lines, EscapeOutcome, InputMode, Panel,
    QuickAddDestination, QuickAddFeedback, QuickAddPresentation, QuickAddSessionController,
    QuickAddSessionStatus, SubmitDecision,
};

#[test]
fn uses_task_panel_context() {
    assert_eq!(
        resolve_quick_add_mode(Panel::Tasks, InputMode::Record),
        InputMode::Task
    );
}

#[test]
fn uses_record_panel_context() {
    assert_eq!(
        resolve_quick_add_mode(Panel::Records, InputMode::Task),
        InputMode::Record
    );
}

#[test]
fn preserves_last_mode_outside_creation_panels() {
    assert_eq!(
        resolve_quick_add_mode(Panel::Dashboard, InputMode::Task),
        InputMode::Task
    );
    assert_eq!(
        resolve_quick_add_mode(Panel::Search, InputMode::Record),
        InputMode::Record
    );
}

#[test]
fn prefers_overlay_when_main_window_is_active() {
    assert_eq!(
        resolve_quick_add_presentation(true),
        QuickAddPresentation::Overlay
    );
}

#[test]
fn falls_back_to_window_when_main_window_is_inactive() {
    assert_eq!(
        resolve_quick_add_presentation(false),
        QuickAddPresentation::Window
    );
}

#[test]
fn input_mode_labels_and_destinations() {
    assert_eq!(InputMode::default(), InputMode::Record);
    assert_eq!(InputMode::Task.destination(), QuickAddDestination::Tasks);
    assert_eq!(InputMode::Record.destination(), QuickAddDestination::Records);
    assert_eq!(InputMode::Task.toggled(), InputMode::Record);
    assert_eq!(InputMode::Task.toggled().toggled(), InputMode::Task);
    assert_eq!(Panel::Search.title(), "搜索");
}

#[test]
fn escape_asks_again_with_a_draft_then_closes() {
    let (outcome, feedback, generation) = handle_escape(false, QuickAddFeedback::Idle, 3);
    assert_eq!(outcome, EscapeOutcome::Close);
    assert_eq!(feedback, QuickAddFeedback::Idle);
    assert_eq!(generation, 3);

    let (outcome, feedback, generation) = handle_escape(true, QuickAddFeedback::Idle, 3);
    assert_eq!(outcome, EscapeOutcome::AskAgain { generation: 4 });
    assert_eq!(feedback, QuickAddFeedback::EscConfirmPending { generation: 4 });
    assert_eq!(generation, 4);

    let (outcome, _, _) = handle_escape(true, feedback, generation);
    assert_eq!(outcome, EscapeOutcome::Close);

    assert_eq!(expire_escape_confirmation(feedback, 4), QuickAddFeedback::Idle);
    assert_eq!(expire_escape_confirmation(feedback, 3), feedback);
}

#[test]
fn submit_needs_text_and_loaded_images() {
    assert_eq!(submit_decision("   \n", false), SubmitDecision::WarnEmpty);
    assert_eq!(submit_decision("买菜", true), SubmitDecision::WaitForAttachments);
    assert_eq!(submit_decision("买菜", false), SubmitDecision::Submit);
}

#[test]
fn window_rows_follow_content() {
    assert_eq!(visible_input_rows(""), 1);
    assert_eq!(visible_input_rows("a\nb\nc"), 3);
    assert_eq!(visible_input_rows("1\n2\n3\n4\n5\n6\n7\n8"), 6);
    assert_eq!(visible_attachment_rows(0), 0);
    assert_eq!(visible_attachment_rows(12), 1);
    assert_eq!(visible_attachment_rows(13), 2);
    assert_eq!(visible_status_lines(true, true), 2);
    assert_eq!(visible_status_lines(false, true), 1);
}

#[test]
fn app_hiding_decisions() {
    assert!(should_hide_app_after_global_quick_add_launch(false, true));
    assert!(!should_hide_app_after_global_quick_add_launch(true, true));
    assert!(should_hide_app_after_quick_add_close(true, 1));
    assert!(!should_hide_app_after_quick_add_close(true, 2));
    assert!(!should_hide_app_after_quick_add_close(false, 0));
}

#[test]
fn session_controller_keeps_and_clears_drafts() {
    let mut session = QuickAddSessionController::default();
    assert!(!session.has_draft());
    session.draft_text = "  ".to_string();
    assert!(!session.has_draft());
    session.draft_text = "草稿".to_string();
    assert!(session.has_draft());
    let serial = session.mark_visible(QuickAddPresentation::Overlay);
    assert_eq!(serial, 1);
    assert_eq!(session.status, QuickAddSessionStatus::Visible);
    session.clear();
    assert_eq!(session.request_serial, 2);
    assert!(!session.has_draft());
    assert_eq!(session.status, QuickAddSessionStatus::Closed);
    assert_eq!(session.mode, InputMode::Record);
}

#[test]
fn dormant_session_keeps_the_draft_for_the_next_opening() {
    let mut session = QuickAddSessionController::default();
    session.save_visible(
        "买菜 #家".to_string(),
        Vec::new(),
        InputMode::Task,
        QuickAddPresentation::Window,
    );
    assert_eq!(session.status, QuickAddSessionStatus::Visible);
    assert_eq!(session.presentation, Some(QuickAddPresentation::Window));
    session.handle = Some(7);
    session.save_dormant("买菜 #家".to_string(), Vec::new(), InputMode::Task);
    assert_eq!(session.status, QuickAddSessionStatus::Dormant);
    assert_eq!(session.handle, None);
    assert_eq!(session.presentation, None);
    session.restore_visible(QuickAddPresentation::Overlay);
    assert_eq!(session.draft_text, "买菜 #家");
    assert_eq!(session.mode, InputMode::Task);
    assert!(session.has_draft());
}
