//! The quick-input window: its mode, where it shows, the draft it keeps
//! between openings, and the decisions it makes on Escape and on submit.
use vstd::prelude::*;

use crate::attachment::PendingAttachment;
use crate::strings::{chars_of, is_blank, is_blank_chars, split_chars, Separator};

verus! {

/// The panels of the main window.
#[derive(Clone, Copy, PartialEq, Eq, Debug, Structural)]
pub enum Panel {
    Dashboard,
    Tasks,
    Records,
    Timeline,
    AI,
    Search,
    Settings,
}

impl Panel {
    /// The title shown for the panel.
    pub fn title(self) -> (r: &'static str)
        ensures
            r@ == match self {
                Panel::Dashboard => "看板"@,
                Panel::Tasks => "任务"@,
                Panel::Records => "记录"@,
                Panel::Timeline => "时间线"@,
                Panel::AI => "AI"@,
                Panel::Search => "搜索"@,
                Panel::Settings => "设置"@,
            },
    {
        match self {
            Self::Dashboard => "看板",
            Self::Tasks => "任务",
            Self::Records => "记录",
            Self::Timeline => "时间线",
            Self::AI => "AI",
            Self::Search => "搜索",
            Self::Settings => "设置",
        }
    }
}

/// Whether the main sidebar shows labels or icons only.
#[derive(Clone, Copy, PartialEq, Eq, Debug, Structural)]
pub enum SidebarLayoutMode {
    Expanded,
    Compact,
}

/// What the quick-input window creates.
#[derive(Clone, Copy, PartialEq, Eq, Debug, Structural)]
pub enum InputMode {
    Task,
    Record,
}

impl Default for InputMode {
    fn default() -> (r: Self)
        ensures
            r == InputMode::Record,
    {
        InputMode::Record
    }
}

/// The panel to open after a quick input.
#[derive(Clone, Copy, PartialEq, Eq, Debug, Structural)]
pub enum QuickAddDestination {
    Main,
    Tasks,
    Records,
}

/// Whether the quick-input window is closed, showing, or hidden with a draft kept.
#[derive(Clone, Copy, PartialEq, Eq, Debug, Structural)]
pub enum QuickAddSessionStatus {
    Closed,
    Visible,
    Dormant,
}

impl Default for QuickAddSessionStatus {
    fn default() -> (r: Self)
        ensures
            r == QuickAddSessionStatus::Closed,
    {
        QuickAddSessionStatus::Closed
    }
}

/// Whether quick input shows over the main window or in a window of its own.
#[derive(Clone, Copy, PartialEq, Eq, Debug, Structural)]
pub enum QuickAddPresentation {
    Overlay,
    Window,
}

impl InputMode {
    /// The short name of the mode.
    pub fn label(&self) -> (r: &'static str)
        ensures
            r@ == match *self {
                InputMode::Task => "任务"@,
                InputMode::Record => "记录"@,
            },
    {
        match self {
            InputMode::Task => "任务",
            InputMode::Record => "记录",
        }
    }

    /// The label of the submit button.
    pub fn submit_label(&self) -> (r: &'static str)
        ensures
            r@ == match *self {
                InputMode::Task => "创建一条任务"@,
                InputMode::Record => "创建一条记录"@,
            },
    {
        match self {
            InputMode::Task => "创建一条任务",
            InputMode::Record => "创建一条记录",
        }
    }

    /// The panel that holds what this mode creates.
    pub fn destination(&self) -> (r: QuickAddDestination)
        ensures
            r == match *self {
                InputMode::Task => QuickAddDestination::Tasks,
                InputMode::Record => QuickAddDestination::Records,
            },
    {
        match self {
            InputMode::Task => QuickAddDestination::Tasks,
            InputMode::Record => QuickAddDestination::Records,
        }
    }

    /// The other mode.
    pub fn toggled(&self) -> (r: InputMode)
        ensures
            r != *self,
    {
        match self {
            InputMode::Task => InputMode::Record,
            InputMode::Record => InputMode::Task,
        }
    }
}

/// The mode quick input opens in: tasks from the task panel, records from
/// the record panel, and the last mode used anywhere else.
pub open spec fn quick_add_mode_for(current_panel: Panel, last_mode: InputMode) -> InputMode {
    match current_panel {
        Panel::Tasks => InputMode::Task,
        Panel::Records => InputMode::Record,
        _ => last_mode,
    }
}

/// The mode quick input opens in for the current panel.
pub fn resolve_quick_add_mode(current_panel: Panel, last_mode: InputMode) -> (r: InputMode)
    ensures
        r == quick_add_mode_for(current_panel, last_mode),
{
    match current_panel {
        Panel::Tasks => InputMode::Task,
        Panel::Records => InputMode::Record,
        _ => last_mode,
    }
}

/// Quick input shows over the main window when that window is active, else
/// in a window of its own.
pub fn resolve_quick_add_presentation(main_window_active: bool) -> (r: QuickAddPresentation)
    ensures
        r == (if main_window_active {
            QuickAddPresentation::Overlay
        } else {
            QuickAddPresentation::Window
        }),
{
    if main_window_active {
        QuickAddPresentation::Overlay
    } else {
        QuickAddPresentation::Window
    }
}

/// After quick input was opened by the global shortcut, the application is
/// hidden again unless it had an active window.
pub fn should_hide_app_after_global_quick_add_launch(
    app_has_active_window: bool,
    has_main_window: bool,
) -> (r: bool)
    ensures
        r == !app_has_active_window,
{
    !app_has_active_window
}

/// Closing quick input hides the application when it was asked to and no
/// other window is left.
pub fn should_hide_app_after_quick_add_close(hide_app_on_close: bool, live_window_count: usize) -> (r:
    bool)
    ensures
        r == (hide_app_on_close && live_window_count <= 1),
{
    hide_app_on_close && live_window_count <= 1
}

/// A serial number one step on, wrapping to zero after the largest value.
pub open spec fn next_serial(s: u64) -> u64 {
    if s == u64::MAX {
        0
    } else {
        (s + 1) as u64
    }
}

fn advance_serial(s: u64) -> (r: u64)
    ensures
        r == next_serial(s),
{
    if s == u64::MAX {
        0
    } else {
        s + 1
    }
}

/// What the quick-input window keeps between openings.
#[derive(Debug)]
pub struct QuickAddSessionController {
    /// The window quick input shows in, by identifier, while it is open.
    pub handle: Option<u64>,
    pub draft_text: String,
    pub pending_attachments: Vec<PendingAttachment>,
    pub mode: InputMode,
    pub status: QuickAddSessionStatus,
    pub presentation: Option<QuickAddPresentation>,
    pub hide_app_on_close: bool,
    pub request_serial: u64,
    /// When the global shortcut was last pressed, in nanoseconds of a
    /// monotonic clock.
    pub last_hotkey_at: Option<u128>,
}

impl Default for QuickAddSessionController {
    fn default() -> (r: Self)
        ensures
            r.handle is None,
            r.draft_text@.len() == 0,
            r.pending_attachments@.len() == 0,
            r.mode == InputMode::Record,
            r.status == QuickAddSessionStatus::Closed,
            r.presentation is None,
            !r.hide_app_on_close,
            r.request_serial == 0,
            r.last_hotkey_at is None,
    {
        QuickAddSessionController {
            handle: None,
            draft_text: String::new(),
            pending_attachments: Vec::new(),
            mode: InputMode::Record,
            status: QuickAddSessionStatus::Closed,
            presentation: None,
            hide_app_on_close: false,
            request_serial: 0,
            last_hotkey_at: None,
        }
    }
}

impl QuickAddSessionController {
    /// There is something to keep: non-blank text or an attachment.
    pub fn has_draft(&self) -> (r: bool)
        ensures
            r == (!is_blank(self.draft_text@) || self.pending_attachments@.len() > 0),
    {
        let chars = chars_of(self.draft_text.as_str());
        !is_blank_chars(chars.as_slice()) || self.pending_attachments.len() > 0
    }

    /// Marks the session as showing with `presentation` for a new request,
    /// and returns the request's serial number.
    pub fn mark_visible(&mut self, presentation: QuickAddPresentation) -> (r: u64)
        ensures
            r == next_serial(old(self).request_serial),
            final(self).request_serial == r,
            final(self).status == QuickAddSessionStatus::Visible,
            final(self).presentation == Some(presentation),
            final(self).handle == old(self).handle,
            final(self).draft_text == old(self).draft_text,
            final(self).pending_attachments == old(self).pending_attachments,
            final(self).mode == old(self).mode,
            final(self).hide_app_on_close == old(self).hide_app_on_close,
            final(self).last_hotkey_at == old(self).last_hotkey_at,
    {
        self.request_serial = advance_serial(self.request_serial);
        self.status = QuickAddSessionStatus::Visible;
        self.presentation = Some(presentation);
        self.request_serial
    }

    /// Marks the session as showing with `presentation` again.
    pub fn restore_visible(&mut self, presentation: QuickAddPresentation)
        ensures
            final(self).status == QuickAddSessionStatus::Visible,
            final(self).presentation == Some(presentation),
            final(self).request_serial == old(self).request_serial,
            final(self).handle == old(self).handle,
            final(self).draft_text == old(self).draft_text,
            final(self).pending_attachments == old(self).pending_attachments,
            final(self).mode == old(self).mode,
            final(self).hide_app_on_close == old(self).hide_app_on_close,
            final(self).last_hotkey_at == old(self).last_hotkey_at,
    {
        self.status = QuickAddSessionStatus::Visible;
        self.presentation = Some(presentation);
    }

    /// Keeps what the showing window holds: its text, its attachments, its
    /// mode and its presentation.
    pub fn save_visible(
        &mut self,
        draft_text: String,
        pending_attachments: Vec<PendingAttachment>,
        mode: InputMode,
        presentation: QuickAddPresentation,
    )
        ensures
            final(self).draft_text == draft_text,
            final(self).pending_attachments == pending_attachments,
            final(self).mode == mode,
            final(self).status == QuickAddSessionStatus::Visible,
            final(self).presentation == Some(presentation),
            final(self).handle == old(self).handle,
            final(self).request_serial == old(self).request_serial,
            final(self).hide_app_on_close == old(self).hide_app_on_close,
            final(self).last_hotkey_at == old(self).last_hotkey_at,
    {
        self.draft_text = draft_text;
        self.pending_attachments = pending_attachments;
        self.mode = mode;
        self.status = QuickAddSessionStatus::Visible;
        self.presentation = Some(presentation);
    }

    /// Hides the window but keeps its draft for the next opening: the
    /// window is forgotten, the text, attachments and mode are kept.
    pub fn save_dormant(
        &mut self,
        draft_text: String,
        pending_attachments: Vec<PendingAttachment>,
        mode: InputMode,
    )
        ensures
            final(self).handle is None,
            final(self).draft_text == draft_text,
            final(self).pending_attachments == pending_attachments,
            final(self).mode == mode,
            final(self).status == QuickAddSessionStatus::Dormant,
            final(self).presentation is None,
            final(self).request_serial == old(self).request_serial,
            final(self).hide_app_on_close == old(self).hide_app_on_close,
            final(self).last_hotkey_at == old(self).last_hotkey_at,
    {
        self.handle = None;
        self.draft_text = draft_text;
        self.pending_attachments = pending_attachments;
        self.mode = mode;
        self.status = QuickAddSessionStatus::Dormant;
        self.presentation = None;
    }

    /// Forgets the draft and closes the session; a new serial number
    /// invalidates requests still under way.
    pub fn clear(&mut self)
        ensures
            final(self).request_serial == next_serial(old(self).request_serial),
            final(self).handle is None,
            final(self).draft_text@.len() == 0,
            final(self).pending_attachments@.len() == 0,
            final(self).mode == InputMode::Record,
            final(self).status == QuickAddSessionStatus::Closed,
            final(self).presentation is None,
            !final(self).hide_app_on_close,
            final(self).last_hotkey_at == old(self).last_hotkey_at,
    {
        self.request_serial = advance_serial(self.request_serial);
        self.handle = None;
        self.draft_text = String::new();
        self.pending_attachments = Vec::new();
        self.mode = InputMode::Record;
        self.status = QuickAddSessionStatus::Closed;
        self.presentation = None;
        self.hide_app_on_close = false;
    }
}

/// The message shown under the quick input.
#[derive(Clone, Copy, PartialEq, Eq, Debug, Structural)]
pub enum QuickAddFeedback {
    Idle,
    EmptySubmitWarning,
    EscConfirmPending { generation: u64 },
    HotkeyDraftProtected,
}

/// What pressing Escape in quick input does.
#[derive(Clone, Copy, PartialEq, Eq, Debug, Structural)]
pub enum EscapeOutcome {
    /// Close the window (and forget the session).
    Close,
    /// Ask for a second Escape; the confirmation expires after a while.
    AskAgain { generation: u64 },
}

/// What Escape does: with no draft, or with a confirmation pending, it closes
/// quick input and leaves the message and counter as they are; otherwise it
/// asks for confirmation under the next generation number. The result is the
/// outcome, the new message and the new generation counter.
pub open spec fn escape_step(has_draft: bool, feedback: QuickAddFeedback, generation: u64) -> (
    EscapeOutcome,
    QuickAddFeedback,
    u64,
) {
    if !has_draft || feedback is EscConfirmPending {
        (EscapeOutcome::Close, feedback, generation)
    } else {
        (
            EscapeOutcome::AskAgain { generation: (generation + 1) as u64 },
            QuickAddFeedback::EscConfirmPending { generation: (generation + 1) as u64 },
            (generation + 1) as u64,
        )
    }
}

/// Escape closes quick input at once when there is no draft, or when a
/// confirmation is pending; otherwise it asks for confirmation under a new
/// generation number. Returns the outcome, the new feedback and the new
/// generation counter.
pub fn handle_escape(has_draft: bool, feedback: QuickAddFeedback, generation: u64) -> (r: (
    EscapeOutcome,
    QuickAddFeedback,
    u64,
))
    requires
        generation < u64::MAX,
    ensures
        r == escape_step(has_draft, feedback, generation),
{
    if !has_draft {
        return (EscapeOutcome::Close, feedback, generation);
    }
    match feedback {
        QuickAddFeedback::EscConfirmPending { .. } => (EscapeOutcome::Close, feedback, generation),
        _ => {
            let next = generation + 1;
            (
                EscapeOutcome::AskAgain { generation: next },
                QuickAddFeedback::EscConfirmPending { generation: next },
                next,
            )
        },
    }
}

/// The message once the confirmation of generation `generation` expired:
/// idle when that confirmation is still showing, else unchanged.
pub open spec fn expired(feedback: QuickAddFeedback, generation: u64) -> QuickAddFeedback {
    if feedback == (QuickAddFeedback::EscConfirmPending { generation }) {
        QuickAddFeedback::Idle
    } else {
        feedback
    }
}

/// When the confirmation of generation `generation` expires, the message
/// goes back to idle, unless it has since changed.
pub fn expire_escape_confirmation(feedback: QuickAddFeedback, generation: u64) -> (r:
    QuickAddFeedback)
    ensures
        r == expired(feedback, generation),
{
    match feedback {
        QuickAddFeedback::EscConfirmPending { generation: current } => {
            if current == generation {
                QuickAddFeedback::Idle
            } else {
                feedback
            }
        },
        _ => feedback,
    }
}

/// What a submit in quick input does.
#[derive(Clone, Copy, PartialEq, Eq, Debug, Structural)]
pub enum SubmitDecision {
    /// Warn that there is nothing to save.
    WarnEmpty,
    /// Tell the user that images are still being prepared.
    WaitForAttachments,
    /// Save the input.
    Submit,
}

/// A blank input is not saved; nor is anything while images are still being
/// prepared.
pub fn submit_decision(text: &str, attachments_loading: bool) -> (r: SubmitDecision)
    ensures
        r == (if is_blank(text@) {
            SubmitDecision::WarnEmpty
        } else if attachments_loading {
            SubmitDecision::WaitForAttachments
        } else {
            SubmitDecision::Submit
        }),
{
    let chars = chars_of(text);
    if is_blank_chars(chars.as_slice()) {
        SubmitDecision::WarnEmpty
    } else if attachments_loading {
        SubmitDecision::WaitForAttachments
    } else {
        SubmitDecision::Submit
    }
}

/// The number of text rows the window makes room for: the number of lines,
/// between one and six.
pub fn visible_input_rows(text: &str) -> (r: usize)
    ensures
        r == (if crate::strings::split_pieces(text@, Separator::LineBreak).len() > 6 {
            6
        } else {
            crate::strings::split_pieces(text@, Separator::LineBreak).len() as int
        }),
{
    let chars = chars_of(text);
    let lines = split_chars(chars.as_slice(), Separator::LineBreak);
    if lines.len() > 6 {
        6
    } else {
        lines.len()
    }
}

/// The number of rows the attachment strip takes: twelve attachments a row.
pub fn visible_attachment_rows(attachment_count: usize) -> (r: usize)
    ensures
        r == (attachment_count + 11) / 12,
{
    if attachment_count == 0 {
        0
    } else {
        (attachment_count - 1) / 12 + 1
    }
}

/// The number of status lines: one while images load, one for an error.
pub fn visible_status_lines(attachments_loading: bool, has_error: bool) -> (r: usize)
    ensures
        r == (if attachments_loading {
            1int
        } else {
            0
        }) + (if has_error {
            1int
        } else {
            0
        }),
{
    (if attachments_loading {
        1
    } else {
        0
    }) + (if has_error {
        1
    } else {
        0
    })
}

/// With a draft, a second Escape always closes quick input: the first one
/// either closes it already or leaves a confirmation pending.
pub proof fn lemma_second_escape_closes(feedback: QuickAddFeedback, generation: u64)
    requires
        generation < u64::MAX,
    ensures
        ({
            let first = escape_step(true, feedback, generation);
            first.0 == EscapeOutcome::Close || escape_step(true, first.1, first.2).0
                == EscapeOutcome::Close
        }),
{
}

/// The confirmation that an Escape leaves pending goes back to idle when the
/// timer of its own generation expires, and only then.
pub proof fn lemma_confirmation_expires(feedback: QuickAddFeedback, generation: u64, other: u64)
    requires
        generation < u64::MAX,
        !(feedback is EscConfirmPending),
    ensures
        ({
            let first = escape_step(true, feedback, generation);
            &&& expired(first.1, first.2) == QuickAddFeedback::Idle
            &&& other != first.2 ==> expired(first.1, other) == first.1
        }),
{
}

} // verus!
