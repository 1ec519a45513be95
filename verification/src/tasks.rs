//! Task states: their labels and icons, when a saved task counts as
//! completed, and the clock times typed for a due date and for a reminder.
use vstd::prelude::*;
use crate::models::{Record, RecordType, TaskStatus};
use crate::strings::{chars_of, split_chars, split_pieces, string_of, Separator};
use crate::unicode::{byte_len, text_byte_len};

verus! {

/// The label of a task status.
pub fn task_status_label(status: TaskStatus) -> (r: &'static str)
    ensures
        r@ == match status {
            TaskStatus::Todo => "待办"@,
            TaskStatus::InProgress => "进行中"@,
            TaskStatus::Done => "已完成"@,
            TaskStatus::Cancelled => "已取消"@,
        },
{
    match status {
        TaskStatus::Todo => "待办",
        TaskStatus::InProgress => "进行中",
        TaskStatus::Done => "已完成",
        TaskStatus::Cancelled => "已取消",
    }
}

/// The icon of a search result: a task shows its progress, other records
/// their kind.
pub fn get_node_icon(record: &Record) -> (r: &'static str)
    ensures
        r@ == match record.record_type {
            RecordType::Task => match record.status {
                Some(TaskStatus::InProgress) => "▶"@,
                Some(TaskStatus::Done) => "☑"@,
                Some(TaskStatus::Cancelled) => "✕"@,
                _ => "◎"@,
            },
            RecordType::Event => "●"@,
            RecordType::Idea => "💡"@,
            RecordType::Note => "📝"@,
        },
{
    match record.record_type {
        RecordType::Task => match record.status {
            Some(TaskStatus::InProgress) => "▶",
            Some(TaskStatus::Done) => "☑",
            Some(TaskStatus::Cancelled) => "✕",
            _ => "◎",
        },
        RecordType::Event => "●",
        RecordType::Idea => "💡",
        RecordType::Note => "📝",
    }
}

/// The icon of a dashboard review row: an idea, a cancelled task, a
/// completed task, a task under way, or any other record.
pub fn review_icon(record: &Record) -> (r: &'static str)
    ensures
        r@ == match record.record_type {
            RecordType::Idea => "💡"@,
            RecordType::Task => if record.status == Some(TaskStatus::Cancelled) {
                "✕"@
            } else if record.completed_at.is_some() {
                "☑"@
            } else {
                "▶"@
            },
            _ => "📝"@,
        },
{
    match record.record_type {
        RecordType::Idea => "💡",
        RecordType::Task => {
            if record.status == Some(TaskStatus::Cancelled) {
                "✕"
            } else if record.completed_at.is_some() {
                "☑"
            } else {
                "▶"
            }
        },
        _ => "📝",
    }
}

/// When a task saved with `status` counts as completed: a done or cancelled
/// task keeps its completion time, or takes `now` if it had none; any other
/// status clears it.
pub open spec fn completion_after_save(status: TaskStatus, completed_at: Option<i128>, now: i128) -> Option<i128> {
    match status {
        TaskStatus::Done | TaskStatus::Cancelled => if completed_at.is_none() {
            Some(now)
        } else {
            completed_at
        },
        _ => None,
    }
}

/// The completion time of a task saved with `status` at the instant `now`.
pub fn completed_at_after_save(status: TaskStatus, completed_at: Option<i128>, now: i128) -> (r: Option<i128>)
    ensures
        r == completion_after_save(status, completed_at, now),
{
    match status {
        TaskStatus::Done | TaskStatus::Cancelled => {
            if completed_at.is_none() {
                Some(now)
            } else {
                completed_at
            }
        },
        _ => None,
    }
}

/// Saving a task twice with a finished status keeps the first completion
/// time; saving it with an open status clears it.
pub proof fn lemma_completion_is_kept(status: TaskStatus, completed_at: Option<i128>, first: i128, second: i128)
    ensures
        (status == TaskStatus::Done || status == TaskStatus::Cancelled) ==> completion_after_save(
            status,
            completion_after_save(status, completed_at, first),
            second,
        ) == completion_after_save(status, completed_at, first),
        (status == TaskStatus::Todo || status == TaskStatus::InProgress) ==> completion_after_save(
            status,
            completed_at,
            first,
        ) is None,
{
}

/// The value of a string of decimal digits.
pub open spec fn digits_value(d: Seq<char>) -> nat
    decreases d.len(),
{
    if d.len() == 0 {
        0
    } else {
        digits_value(d.drop_last()) * 10 + ((d.last() as u32) - ('0' as u32)) as nat
    }
}

/// Every character is an ASCII digit.
pub open spec fn all_digits(d: Seq<char>) -> bool {
    forall|k: int| 0 <= k < d.len() ==> '0' <= #[trigger] d[k] <= '9'
}

/// What `str::parse::<u32>` reads: an optional `+` and at least one ASCII
/// digit, nothing else, with a value that fits in a `u32`.
pub open spec fn parsed_u32(s: Seq<char>) -> Option<nat> {
    let d = if s.len() > 0 && s[0] == '+' {
        s.drop_first()
    } else {
        s
    };
    if d.len() > 0 && all_digits(d) && digits_value(d) <= u32::MAX {
        Some(digits_value(d))
    } else {
        None
    }
}

/// A longer run of digits is worth at least as much as its beginning.
proof fn lemma_digits_value_grows(d: Seq<char>, i: int)
    requires
        0 <= i <= d.len(),
        all_digits(d),
    ensures
        digits_value(d.take(i)) <= digits_value(d),
    decreases d.len() - i,
{
    if i < d.len() {
        lemma_digits_value_grows(d, i + 1);
        let t = d.take(i + 1);
        assert(t.drop_last() =~= d.take(i));
        assert('0' <= d[i] <= '9');
    } else {
        assert(d.take(i) =~= d);
    }
}

/// `s` read as a `u32`, as `str::parse::<u32>` reads it.
pub fn parse_u32(s: &[char]) -> (r: Option<u32>)
    ensures
        match r {
            Some(v) => parsed_u32(s@) == Some(v as nat),
            None => parsed_u32(s@) is None,
        },
{
    let start: usize = if s.len() > 0 && s[0] == '+' {
        1
    } else {
        0
    };
    let ghost d = if s@.len() > 0 && s@[0] == '+' {
        s@.drop_first()
    } else {
        s@
    };
    assert(d =~= s@.skip(start as int));
    if start >= s.len() {
        return None;
    }
    let mut value: u64 = 0;
    let mut i: usize = start;
    while i < s.len()
        invariant
            start <= i <= s.len(),
            start < s.len(),
            d == (if s@.len() > 0 && s@[0] == '+' {
                s@.drop_first()
            } else {
                s@
            }),
            d =~= s@.skip(start as int),
            all_digits(d.take(i - start)),
            value == digits_value(d.take(i - start)),
            value <= u32::MAX,
        decreases s.len() - i,
    {
        let c = s[i];
        let ghost t = d.take(i - start + 1);
        proof {
            assert(t.drop_last() =~= d.take(i - start));
            assert(t.last() == c);
        }
        if c < '0' || c > '9' {
            proof {
                assert(d[i - start] == c);
                assert(!all_digits(d));
            }
            return None;
        }
        let digit = (c as u32 - '0' as u32) as u64;
        let next = value * 10 + digit;
        if next > 0xffff_ffff {
            proof {
                assert(digits_value(t) == next);
                if all_digits(d) {
                    lemma_digits_value_grows(d, i - start + 1);
                }
            }
            return None;
        }
        value = next;
        i += 1;
    }
    proof {
        assert(d.take(i - start) =~= d);
    }
    Some(value as u32)
}

/// The hour and minute typed as `H:M` (the text before the first colon and
/// between the first and the second), each zero when missing or not a
/// number; none when they are not a valid clock time.
pub open spec fn clock_time_of(s: Seq<char>) -> Option<(nat, nat)> {
    let parts = split_pieces(s, Separator::Colon);
    let hour = match parsed_u32(parts[0]) {
        Some(h) => h,
        None => 0,
    };
    let minute = if parts.len() > 1 {
        match parsed_u32(parts[1]) {
            Some(m) => m,
            None => 0,
        }
    } else {
        0
    };
    if hour < 24 && minute < 60 {
        Some((hour, minute))
    } else {
        None
    }
}

/// The hour and minute of a typed clock time, when valid.
pub fn parse_clock_time(time_str: &str) -> (r: Option<(u32, u32)>)
    ensures
        match r {
            Some((h, m)) => clock_time_of(time_str@) == Some((h as nat, m as nat)),
            None => clock_time_of(time_str@) is None,
        },
{
    let chars = chars_of(time_str);
    let parts = split_chars(chars.as_slice(), Separator::Colon);
    proof {
        assert(split_pieces(chars@, Separator::Colon).len() >= 1);
        assert(parts@.len() >= 1);
        assert(crate::strings::char_views(parts@)[0] == parts@[0]@);
    }
    let hour = match parse_u32(parts[0].as_slice()) {
        Some(h) => h,
        None => 0,
    };
    let minute = if parts.len() > 1 {
        proof {
            assert(crate::strings::char_views(parts@)[1] == parts@[1]@);
        }
        match parse_u32(parts[1].as_slice()) {
            Some(m) => m,
            None => 0,
        }
    } else {
        0
    };
    if hour < 24 && minute < 60 {
        Some((hour, minute))
    } else {
        None
    }
}

/// The hour and minute of a reminder typed as `H:MM` or `HH:MM`: exactly
/// one colon, at most two bytes before it and exactly two after it, both
/// parts numbers, the hour at most 23 and the minute at most 59.
pub open spec fn reminder_time_of(s: Seq<char>) -> Option<(nat, nat)> {
    let parts = split_pieces(s, Separator::Colon);
    if parts.len() == 2 && byte_len(parts[0]) <= 2 && byte_len(parts[1]) == 2 {
        match (parsed_u32(parts[0]), parsed_u32(parts[1])) {
            (Some(h), Some(m)) => if h <= 23 && m <= 59 {
                Some((h, m))
            } else {
                None
            },
            _ => None,
        }
    } else {
        None
    }
}

/// The hour and minute of a typed reminder time, when it is a valid
/// `H:MM` or `HH:MM`; `None` asks for the time to be typed again.
pub fn parse_reminder_time(text: &str) -> (r: Option<(u32, u32)>)
    ensures
        match r {
            Some((h, m)) => reminder_time_of(text@) == Some((h as nat, m as nat)),
            None => reminder_time_of(text@) is None,
        },
{
    let chars = chars_of(text);
    let parts = split_chars(chars.as_slice(), Separator::Colon);
    if parts.len() != 2 {
        return None;
    }
    proof {
        assert(crate::strings::char_views(parts@)[0] == parts@[0]@);
        assert(crate::strings::char_views(parts@)[1] == parts@[1]@);
    }
    let hour_text = string_of(parts[0].as_slice());
    let minute_text = string_of(parts[1].as_slice());
    if text_byte_len(hour_text.as_str()) > 2 || text_byte_len(minute_text.as_str()) != 2 {
        return None;
    }
    match (parse_u32(parts[0].as_slice()), parse_u32(parts[1].as_slice())) {
        (Some(h), Some(m)) => if h <= 23 && m <= 59 {
            Some((h, m))
        } else {
            None
        },
        _ => None,
    }
}

/// The message shown when a reminder time is not a valid `H:MM` or `HH:MM`.
pub fn reminder_time_error() -> (r: &'static str)
    ensures
        r@ == "时间格式无效，请输入 HH:MM（例 14:30）"@,
{
    "时间格式无效，请输入 HH:MM（例 14:30）"
}

} // verus!
