//! Short previews of titles and contents: white space collapsed, long text
//! cut after a number of characters with a marker, the first non-blank line
//! of a text.
use vstd::prelude::*;
use crate::strings::{
    chars_of, is_blank, is_blank_chars, join, join_chars, split_chars, split_pieces, string_of,
    trim, trim_chars, words, words_of, Separator,
};

verus! {

/// `s` with its words joined by single spaces (`split_whitespace` and `join(" ")`).
pub open spec fn normalized(s: Seq<char>) -> Seq<char> {
    join(words(s), ' ')
}

/// `s` itself when it has at most `limit` characters, else its first `limit`
/// characters followed by `marker`.
pub open spec fn truncated(s: Seq<char>, limit: nat, marker: Seq<char>) -> Seq<char> {
    if s.len() <= limit {
        s
    } else {
        s.take(limit as int) + marker
    }
}

/// The three dots put after a cut text.
pub open spec fn dots() -> Seq<char> {
    seq!['.', '.', '.']
}

/// The trimmed first line of `lines` that is not blank, if there is one.
pub open spec fn first_filled_line(lines: Seq<Seq<char>>) -> Option<Seq<char>>
    decreases lines.len(),
{
    if lines.len() == 0 {
        None
    } else if !is_blank(lines[0]) {
        Some(trim(lines[0]))
    } else {
        first_filled_line(lines.drop_first())
    }
}

/// The lines of `s`. Pieces between line feeds; they differ from
/// `str::lines` only by a carriage return at a line's end and by a last empty
/// piece, which the callers here never use, as they look only at trimmed
/// lines that are not blank.
pub open spec fn text_lines(s: Seq<char>) -> Seq<Seq<char>> {
    split_pieces(s, Separator::LineBreak)
}

/// `v` followed by `s`.
pub fn append_chars(v: &mut Vec<char>, s: &[char])
    ensures
        final(v)@ == old(v)@ + s@,
{
    let ghost start = v@;
    let mut i: usize = 0;
    while i < s.len()
        invariant
            0 <= i <= s.len(),
            v@ =~= start + s@.take(i as int),
        decreases s.len() - i,
    {
        v.push(s[i]);
        i += 1;
    }
    assert(s@.take(s.len() as int) =~= s@);
}

/// The first `n` characters of `s`.
fn take_chars(s: &[char], n: usize) -> (r: Vec<char>)
    requires
        n <= s.len(),
    ensures
        r@ == s@.take(n as int),
{
    let mut r: Vec<char> = Vec::new();
    let mut i: usize = 0;
    while i < n
        invariant
            0 <= i <= n <= s.len(),
            r@ =~= s@.take(i as int),
        decreases n - i,
    {
        r.push(s[i]);
        i += 1;
    }
    r
}

/// `s` cut after `limit` characters, with `marker` when it was longer.
fn truncated_chars(s: &[char], limit: usize, marker: &[char]) -> (r: Vec<char>)
    ensures
        r@ == truncated(s@, limit as nat, marker@),
{
    if s.len() <= limit {
        take_chars(s, s.len())
    } else {
        let mut r = take_chars(s, limit);
        append_chars(&mut r, marker);
        r
    }
}

/// The words of `chars` joined by single spaces.
pub fn normalized_chars(chars: &[char]) -> (r: Vec<char>)
    ensures
        r@ == normalized(chars@),
{
    let ws = words_of(chars);
    join_chars(&ws, ' ')
}

/// `text` with its words joined by single spaces.
pub fn normalize_text(text: &str) -> (r: String)
    ensures
        r@ == normalized(text@),
{
    let chars = chars_of(text);
    string_of(normalized_chars(chars.as_slice()).as_slice())
}

/// `text` normalized, and cut after `limit` characters with `...` when longer.
pub fn truncate_text(text: &str, limit: usize) -> (r: String)
    ensures
        r@ == truncated(normalized(text@), limit as nat, dots()),
{
    let chars = chars_of(text);
    let normalized = normalized_chars(chars.as_slice());
    let marker = ['.', '.', '.'];
    proof {
        assert(marker@ =~= dots());
    }
    string_of(truncated_chars(normalized.as_slice(), limit, marker.as_slice()).as_slice())
}

/// A line feed becomes a space; other characters stay.
pub open spec fn flattened(s: Seq<char>) -> Seq<char> {
    s.map_values(|c: char| if c == '\n' { ' ' } else { c })
}

/// `input` on one line (line feeds turned into spaces), cut after `limit`
/// characters with `…` when longer.
pub fn truncate_preview(input: &str, limit: usize) -> (r: String)
    ensures
        r@ == truncated(flattened(input@), limit as nat, seq!['…']),
{
    let chars = chars_of(input);
    let mut flat: Vec<char> = Vec::new();
    let mut i: usize = 0;
    while i < chars.len()
        invariant
            0 <= i <= chars.len(),
            flat@ =~= flattened(chars@.take(i as int)),
        decreases chars.len() - i,
    {
        let c = chars[i];
        flat.push(if c == '\n' { ' ' } else { c });
        i += 1;
    }
    assert(chars@.take(chars.len() as int) =~= chars@);
    let marker = ['…'];
    proof {
        assert(marker@ =~= seq!['…']);
    }
    string_of(truncated_chars(flat.as_slice(), limit, marker.as_slice()).as_slice())
}

/// `value` itself when it has at most `max_chars` characters; else its first
/// `max_chars / 2 - 1` characters, `…`, and its last `max_chars - max_chars / 2`.
pub open spec fn middle_truncated(value: Seq<char>, max_chars: nat) -> Seq<char> {
    if value.len() <= max_chars {
        value
    } else {
        value.take(max_chars / 2 - 1) + seq!['…'] + value.skip(
            value.len() - (max_chars - max_chars / 2),
        )
    }
}

/// `value` shortened in the middle to `max_chars` characters; a value that
/// must be cut needs room for at least two.
pub fn truncate_middle(value: &str, max_chars: usize) -> (r: String)
    requires
        value@.len() <= max_chars || max_chars >= 2,
    ensures
        r@ == middle_truncated(value@, max_chars as nat),
{
    let chars = chars_of(value);
    if chars.len() <= max_chars {
        return string_of(chars.as_slice());
    }
    let head = max_chars / 2 - 1;
    let tail = max_chars - (head + 1);
    let mut r = take_chars(chars.as_slice(), head);
    r.push('…');
    let start = chars.len() - tail;
    let mut i: usize = start;
    let ghost before = r@;
    while i < chars.len()
        invariant
            start <= i <= chars.len(),
            r@ =~= before + chars@.subrange(start as int, i as int),
        decreases chars.len() - i,
    {
        r.push(chars[i]);
        i += 1;
    }
    proof {
        assert(chars@.subrange(start as int, chars.len() as int) =~= chars@.skip(start as int));
        assert(before =~= chars@.take(head as int) + seq!['…']);
    }
    string_of(r.as_slice())
}

/// The trimmed first line of `lines` from index `from` on that is not blank.
pub fn first_filled_line_from(lines: &Vec<Vec<char>>, from: usize) -> (r: Option<Vec<char>>)
    requires
        from <= lines.len(),
    ensures
        match r {
            Some(v) => first_filled_line(crate::strings::char_views(lines@).skip(from as int))
                == Some(v@),
            None => first_filled_line(crate::strings::char_views(lines@).skip(from as int))
                is None,
        },
{
    let ghost ls = crate::strings::char_views(lines@);
    let mut i: usize = from;
    while i < lines.len()
        invariant
            from <= i <= lines.len(),
            ls == crate::strings::char_views(lines@),
            first_filled_line(ls.skip(from as int)) == first_filled_line(ls.skip(i as int)),
        decreases lines.len() - i,
    {
        proof {
            assert(ls.skip(i as int)[0] == ls[i as int]);
            assert(ls.skip(i as int).drop_first() =~= ls.skip(i + 1));
        }
        if !is_blank_chars(lines[i].as_slice()) {
            return Some(trim_chars(lines[i].as_slice()));
        }
        i += 1;
    }
    None
}

/// The title of a record when it is not blank, else the trimmed first
/// non-blank line of its content, else `fallback`.
pub open spec fn title_or_first_line(title: Option<String>, content: Seq<char>, fallback: Seq<char>) -> Seq<char> {
    match title {
        Some(t) if !is_blank(t@) => t@,
        _ => match first_filled_line(text_lines(content)) {
            Some(l) => l,
            None => fallback,
        },
    }
}

/// The characters of [`title_or_first_line`].
pub fn title_or_first_line_chars(title: &Option<String>, content: &str, fallback: &[char]) -> (r: Vec<char>)
    ensures
        r@ == title_or_first_line(*title, content@, fallback@),
{
    match title {
        Some(t) => {
            let chars = chars_of(t.as_str());
            if !is_blank_chars(chars.as_slice()) {
                return chars;
            }
        },
        None => {},
    }
    let content_chars = chars_of(content);
    let lines = split_chars(content_chars.as_slice(), Separator::LineBreak);
    proof {
        assert(crate::strings::char_views(lines@).skip(0) =~= crate::strings::char_views(lines@));
    }
    match first_filled_line_from(&lines, 0) {
        Some(l) => l,
        None => take_chars(fallback, fallback.len()),
    }
}

} // verus!
