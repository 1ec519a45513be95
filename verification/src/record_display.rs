//! How records are named and previewed in the lists: the note list, the task
//! cards, the dashboard rows, and the height of a content box.
use vstd::prelude::*;
use crate::models::{Priority, Record};
use crate::strings::{chars_of, split_chars, string_of, Separator};
use crate::text_preview::{
    dots, first_filled_line, normalized, normalized_chars, text_lines, title_or_first_line,
    title_or_first_line_chars, truncate_text, truncated,
};
use crate::unicode::{byte_len, lemma_byte_len_take_le, lemma_byte_len_take_succ, text_byte_len};

verus! {

/// Characters a note title shows.
pub const NOTE_TITLE_LIMIT: usize = 24;

/// Characters a note preview shows.
pub const NOTE_PREVIEW_LIMIT: usize = 44;

/// Characters a task card title shows.
pub const TASK_CARD_TITLE_LIMIT: usize = 24;

/// Characters a task card preview shows.
pub const TASK_CARD_PREVIEW_LIMIT: usize = 44;

/// Width units a content line holds.
pub const APPROX_CHARS_PER_LINE: usize = 45;

/// `无标题`, the name of a record without title or text.
pub open spec fn untitled() -> Seq<char> {
    seq!['无', '标', '题']
}

/// `无标题任务`, the name of a task without title or text.
pub open spec fn untitled_task() -> Seq<char> {
    seq!['无', '标', '题', '任', '务']
}

/// The dashboard name of a record: its title, or its first non-blank line,
/// or `无标题`, cut after `limit` characters with `...`.
pub fn display_text(record: &Record, limit: usize) -> (r: String)
    ensures
        r@ == truncated(
            title_or_first_line(record.title, record.content@, untitled()),
            limit as nat,
            dots(),
        ),
{
    let fallback = ['无', '标', '题'];
    proof {
        assert(fallback@ =~= untitled());
    }
    let base = title_or_first_line_chars(&record.title, record.content.as_str(), fallback.as_slice());
    if base.len() <= limit {
        string_of(base.as_slice())
    } else {
        let mut cut: Vec<char> = Vec::new();
        let mut i: usize = 0;
        while i < limit
            invariant
                0 <= i <= limit < base.len(),
                cut@ =~= base@.take(i as int),
            decreases limit - i,
        {
            cut.push(base[i]);
            i += 1;
        }
        cut.push('.');
        cut.push('.');
        cut.push('.');
        proof {
            assert(cut@ =~= base@.take(limit as int) + dots());
        }
        string_of(cut.as_slice())
    }
}

/// The title and the preview of a note in the note list: the title (or the
/// first non-blank line, or `无标题`) and the first non-blank line after the
/// first line (or nothing), each normalized and cut with `...`.
pub fn get_note_display(note: &Record) -> (r: (String, String))
    ensures
        r.0@ == truncated(
            normalized(title_or_first_line(note.title, note.content@, untitled())),
            NOTE_TITLE_LIMIT as nat,
            dots(),
        ),
        r.1@ == truncated(
            normalized(
                match first_filled_line(text_lines(note.content@).skip(1)) {
                    Some(l) => l,
                    None => Seq::empty(),
                },
            ),
            NOTE_PREVIEW_LIMIT as nat,
            dots(),
        ),
{
    let fallback = ['无', '标', '题'];
    proof {
        assert(fallback@ =~= untitled());
    }
    let title = string_of(
        title_or_first_line_chars(&note.title, note.content.as_str(), fallback.as_slice()).as_slice(),
    );
    let chars = chars_of(note.content.as_str());
    let lines = split_chars(chars.as_slice(), Separator::LineBreak);
    let preview = match crate::text_preview::first_filled_line_from(&lines, 1) {
        Some(l) => string_of(l.as_slice()),
        None => String::new(),
    };
    (truncate_text(title.as_str(), NOTE_TITLE_LIMIT), truncate_text(preview.as_str(), NOTE_PREVIEW_LIMIT))
}

/// The name on a task card: the title (or the first non-blank line, or
/// `无标题任务`), normalized and cut with `...`.
pub fn task_display_name(task: &Record) -> (r: String)
    ensures
        r@ == truncated(
            normalized(title_or_first_line(task.title, task.content@, untitled_task())),
            TASK_CARD_TITLE_LIMIT as nat,
            dots(),
        ),
{
    let fallback = ['无', '标', '题', '任', '务'];
    proof {
        assert(fallback@ =~= untitled_task());
    }
    let base = string_of(
        title_or_first_line_chars(&task.title, task.content.as_str(), fallback.as_slice()).as_slice(),
    );
    truncate_text(base.as_str(), TASK_CARD_TITLE_LIMIT)
}

/// The preview on a task card: the normalized content, cut with `...`;
/// nothing when the content is blank or says no more than the title.
pub open spec fn task_preview_text(title: Option<String>, content: Seq<char>) -> Seq<char> {
    let c = normalized(content);
    let t = match title {
        Some(t) => normalized(t@),
        None => Seq::empty(),
    };
    if c.len() == 0 {
        Seq::empty()
    } else if t.len() > 0 && c == t {
        Seq::empty()
    } else {
        truncated(normalized(c), TASK_CARD_PREVIEW_LIMIT as nat, dots())
    }
}

/// The preview on a task card.
pub fn task_preview(task: &Record) -> (r: String)
    ensures
        r@ == task_preview_text(task.title, task.content@),
{
    let content_chars = chars_of(task.content.as_str());
    let normalized_content = normalized_chars(content_chars.as_slice());
    if normalized_content.len() == 0 {
        return String::new();
    }
    let normalized_title = match &task.title {
        Some(t) => {
            let title_chars = chars_of(t.as_str());
            normalized_chars(title_chars.as_slice())
        },
        None => Vec::new(),
    };
    if normalized_title.len() > 0 && crate::strings::chars_equal(
        normalized_content.as_slice(),
        normalized_title.as_slice(),
    ) {
        return String::new();
    }
    truncate_text(string_of(normalized_content.as_slice()).as_str(), TASK_CARD_PREVIEW_LIMIT)
}

/// Width units of `s`: one for an ASCII character, two for any other.
pub open spec fn display_width(s: Seq<char>) -> nat
    decreases s.len(),
{
    if s.len() == 0 {
        0
    } else {
        display_width(s.drop_last()) + if (s.last() as u32) < 128 {
            1nat
        } else {
            2nat
        }
    }
}

/// The number of line feeds in `s`.
pub open spec fn line_feed_count(s: Seq<char>) -> nat
    decreases s.len(),
{
    if s.len() == 0 {
        0
    } else {
        line_feed_count(s.drop_last()) + if s.last() == '\n' {
            1nat
        } else {
            0nat
        }
    }
}

/// The lines a content box needs: its line feeds plus its width in lines of
/// 45 units, rounded up; at least one.
pub open spec fn estimated_lines(s: Seq<char>) -> nat {
    if s.len() == 0 {
        1
    } else {
        let e = line_feed_count(s) + (display_width(s) + 44) / 45;
        if e < 1 {
            1
        } else {
            e
        }
    }
}

/// The number of lines a content box needs. A `str` holds at most
/// `isize::MAX` bytes.
pub fn estimate_line_count(content: &str) -> (r: usize)
    requires
        byte_len(content@) <= isize::MAX,
    ensures
        r == estimated_lines(content@),
{
    let chars = chars_of(content);
    if chars.len() == 0 {
        return 1;
    }
    let total = text_byte_len(content);
    let mut width: usize = 0;
    let mut feeds: usize = 0;
    let mut i: usize = 0;
    while i < chars.len()
        invariant
            0 <= i <= chars.len(),
            chars@ == content@,
            total == byte_len(content@),
            total <= isize::MAX,
            width == display_width(chars@.take(i as int)),
            feeds == line_feed_count(chars@.take(i as int)),
            feeds <= width,
            width <= byte_len(chars@.take(i as int)),
        decreases chars.len() - i,
    {
        let c = chars[i];
        proof {
            let t = chars@.take(i + 1);
            assert(t.drop_last() =~= chars@.take(i as int));
            assert(t.last() == c);
            lemma_byte_len_take_succ(chars@, i as int);
            lemma_byte_len_take_le(chars@, i + 1);
        }
        if (c as u32) < 128 {
            width += 1;
        } else {
            width += 2;
        }
        if c == '\n' {
            feeds += 1;
        }
        i += 1;
    }
    proof {
        assert(chars@.take(chars.len() as int) =~= chars@);
    }
    let estimated = feeds + (width + APPROX_CHARS_PER_LINE - 1) / APPROX_CHARS_PER_LINE;
    if estimated < 1 {
        1
    } else {
        estimated
    }
}

/// The priority shown on a dashboard row: `高`, `中`, or `低` for low and for
/// no priority.
pub fn priority_label(task: &Record) -> (r: &'static str)
    ensures
        r@ == match task.priority {
            Some(Priority::High) => "高"@,
            Some(Priority::Medium) => "中"@,
            _ => "低"@,
        },
{
    match task.priority {
        Some(Priority::High) => "高",
        Some(Priority::Medium) => "中",
        _ => "低",
    }
}

} // verus!
