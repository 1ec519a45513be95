//! Parsing of the quick-input syntax: `!!` / `!` priorities, `#tag` and
//! `@person` words, and tag or person lists.
use vstd::prelude::*;

use crate::models::Priority;
use crate::unicode::is_white_space;
use crate::strings::{
    char_vectors_of, char_views, chars_equal, chars_of, is_blank, is_blank_chars, join,
    join_chars, non_empty, split_chars, split_pieces, string_of, string_views, strings_of, trim,
    trim_chars, trim_end, trim_start, trim_start_chars, words, words_of, Separator, is_separator, is_word,
    lemma_split_pieces_concat, lemma_split_state_separator_free, lemma_words_concat,
    lemma_words_empty, lemma_words_join, lemma_words_trim,
};

verus! {

/// Title, content, tags and people of a record whose title and content may
/// both hold `#tag` and `@person` words.
#[derive(Debug, Clone, PartialEq, Eq)]
pub struct ParsedRecordFields {
    pub title: Option<String>,
    pub content: String,
    pub tags: Vec<String>,
    pub people: Vec<String>,
}

/* ---------------------------------------------------------------------- */
/* Specification                                                          */
/* ---------------------------------------------------------------------- */

/// `w` begins with the marker `m`.
pub open spec fn starts_with_marker(w: Seq<char>, m: char) -> bool {
    w.len() > 0 && w[0] == m
}

/// A word that is a tag or person mention (possibly an empty one such as `#`).
pub open spec fn is_metadata_word(w: Seq<char>) -> bool {
    starts_with_marker(w, '#') || starts_with_marker(w, '@')
}

/// The words of `ws` that are not tag or person mentions, in order.
pub open spec fn plain_words(ws: Seq<Seq<char>>) -> Seq<Seq<char>>
    decreases ws.len(),
{
    if ws.len() == 0 {
        Seq::empty()
    } else if is_metadata_word(ws.last()) {
        plain_words(ws.drop_last())
    } else {
        plain_words(ws.drop_last()).push(ws.last())
    }
}

/// The names mentioned with marker `m` in `ws`: every word that is `m`
/// followed by at least one character, without the marker, in order.
pub open spec fn marked_names(ws: Seq<Seq<char>>, m: char) -> Seq<Seq<char>>
    decreases ws.len(),
{
    if ws.len() == 0 {
        Seq::empty()
    } else if ws.last().len() > 1 && ws.last()[0] == m {
        marked_names(ws.drop_last(), m).push(ws.last().drop_first())
    } else {
        marked_names(ws.drop_last(), m)
    }
}

/// A line reduced to its plain words, separated by single spaces.
pub open spec fn line_text(line: Seq<char>) -> Seq<char> {
    join(plain_words(words(line)), ' ')
}

/// Every line reduced to its plain words.
pub open spec fn cleaned_lines(lines: Seq<Seq<char>>) -> Seq<Seq<char>> {
    lines.map_values(|l: Seq<char>| line_text(l))
}

/// `ls` without its leading blank lines.
pub open spec fn drop_leading_blank(ls: Seq<Seq<char>>) -> Seq<Seq<char>>
    decreases ls.len(),
{
    if ls.len() > 0 && is_blank(ls[0]) {
        drop_leading_blank(ls.drop_first())
    } else {
        ls
    }
}

/// `ls` without its trailing blank lines.
pub open spec fn drop_trailing_blank(ls: Seq<Seq<char>>) -> Seq<Seq<char>>
    decreases ls.len(),
{
    if ls.len() > 0 && is_blank(ls.last()) {
        drop_trailing_blank(ls.drop_last())
    } else {
        ls
    }
}

/// `ls` without blank lines at either end.
pub open spec fn trim_blank_edges(ls: Seq<Seq<char>>) -> Seq<Seq<char>> {
    drop_trailing_blank(drop_leading_blank(ls))
}

/// The text of `input` once its tag and person words are taken out: every
/// line keeps its other words separated by single spaces, blank lines at
/// either end are dropped, and the result is trimmed.
pub open spec fn content_without_metadata(input: Seq<char>) -> Seq<char> {
    trim(join(trim_blank_edges(cleaned_lines(split_pieces(input, Separator::LineBreak))), '\n'))
}

/// The tags written in `input` (`#name` words), in order of appearance.
pub open spec fn tags_in(input: Seq<char>) -> Seq<Seq<char>> {
    marked_names(words(input), '#')
}

/// The people written in `input` (`@name` words), in order of appearance.
pub open spec fn people_in(input: Seq<char>) -> Seq<Seq<char>> {
    marked_names(words(input), '@')
}

/// `s` begins with `p`.
pub open spec fn starts_with(s: Seq<char>, p: Seq<char>) -> bool {
    p.len() <= s.len() && s.take(p.len() as int) == p
}

/// The priority written at the start of `input` and the text after it:
/// `!!` or `！！` is high, `!` or `！` is medium, anything else is low.
pub open spec fn parsed_priority(input: Seq<char>) -> (Seq<char>, Priority) {
    let t = trim(input);
    if starts_with(t, seq!['!', '!']) || starts_with(t, seq!['！', '！']) {
        (trim_start(t.skip(2)), Priority::High)
    } else if starts_with(t, seq!['!']) || starts_with(t, seq!['！']) {
        (trim_start(t.skip(1)), Priority::Medium)
    } else {
        (t, Priority::Low)
    }
}

/// `None` for blank text, else the trimmed text.
pub open spec fn normalized_optional(s: Seq<char>) -> Option<Seq<char>> {
    if trim(s).len() == 0 {
        None
    } else {
        Some(trim(s))
    }
}

/// `s` with every repeated value removed after its first occurrence.
pub open spec fn dedup(s: Seq<Seq<char>>) -> Seq<Seq<char>>
    decreases s.len(),
{
    if s.len() == 0 {
        Seq::empty()
    } else if dedup(s.drop_last()).contains(s.last()) {
        dedup(s.drop_last())
    } else {
        dedup(s.drop_last()).push(s.last())
    }
}

/// The view of an optional string.
pub open spec fn optional_view(o: Option<String>) -> Option<Seq<char>> {
    match o {
        Some(s) => Some(s@),
        None => None,
    }
}

/// The text of an optional title, empty when there is none.
pub open spec fn optional_text(o: Option<&str>) -> Seq<char> {
    match o {
        Some(s) => s@,
        None => Seq::empty(),
    }
}

/// The metadata words for `tags` and `people`: `#tag` for each tag, then
/// `@person` for each person.
pub open spec fn metadata_words(tags: Seq<Seq<char>>, people: Seq<Seq<char>>) -> Seq<Seq<char>> {
    tags.map_values(|t: Seq<char>| seq!['#'] + t) + people.map_values(
        |p: Seq<char>| seq!['@'] + p,
    )
}

/// Content followed, on a line of its own, by its metadata words.
pub open spec fn composed_content(
    content: Seq<char>,
    tags: Seq<Seq<char>>,
    people: Seq<Seq<char>>,
) -> Seq<char> {
    let metadata = join(metadata_words(tags, people), ' ');
    let c = trim(content);
    if c.len() == 0 {
        metadata
    } else if metadata.len() == 0 {
        c
    } else {
        c.push('\n') + metadata
    }
}

/// The members of a delimited list: pieces between `,`, `，` or white space,
/// trimmed, empty ones dropped.
pub open spec fn list_items(input: Seq<char>) -> Seq<Seq<char>> {
    non_empty(split_pieces(input, Separator::ListDelimiter).map_values(|p: Seq<char>| trim(p)))
}

/* ---------------------------------------------------------------------- */
/* Lemmas                                                                  */
/* ---------------------------------------------------------------------- */

proof fn lemma_drop_leading_blank_skip(ls: Seq<Seq<char>>, i: int)
    requires
        0 <= i <= ls.len(),
        forall|k: int| 0 <= k < i ==> is_blank(#[trigger] ls[k]),
        i < ls.len() ==> !is_blank(ls[i]),
    ensures
        drop_leading_blank(ls) =~= ls.skip(i),
    decreases i,
{
    if i > 0 {
        assert(is_blank(ls[0]));
        let t = ls.drop_first();
        assert forall|k: int| 0 <= k < i - 1 implies is_blank(#[trigger] t[k]) by {
            assert(t[k] == ls[k + 1]);
        }
        lemma_drop_leading_blank_skip(t, i - 1);
        assert(t.skip(i - 1) =~= ls.skip(i));
    }
}

proof fn lemma_drop_trailing_blank_take(ls: Seq<Seq<char>>, j: int)
    requires
        0 <= j <= ls.len(),
        forall|k: int| j <= k < ls.len() ==> is_blank(#[trigger] ls[k]),
        j > 0 ==> !is_blank(ls[j - 1]),
    ensures
        drop_trailing_blank(ls) =~= ls.take(j),
    decreases ls.len() - j,
{
    if j < ls.len() {
        assert(is_blank(ls.last()));
        let t = ls.drop_last();
        assert forall|k: int| j <= k < t.len() implies is_blank(#[trigger] t[k]) by {
            assert(t[k] == ls[k]);
        }
        lemma_drop_trailing_blank_take(t, j);
        assert(t.take(j) =~= ls.take(j));
    }
}

/* ---------------------------------------------------------------------- */
/* Implementation                                                         */
/* ---------------------------------------------------------------------- */

/// The words of `ws` that are not tag or person mentions.
fn plain_words_of(ws: &Vec<Vec<char>>) -> (r: Vec<Vec<char>>)
    ensures
        char_views(r@) == plain_words(char_views(ws@)),
{
    let mut r: Vec<Vec<char>> = Vec::new();
    let mut i: usize = 0;
    while i < ws.len()
        invariant
            0 <= i <= ws.len(),
            char_views(r@) =~= plain_words(char_views(ws@).take(i as int)),
        decreases ws.len() - i,
    {
        proof {
            assert(char_views(ws@).take(i + 1).drop_last() =~= char_views(ws@).take(i as int));
        }
        let w = &ws[i];
        let marked = w.len() > 0 && (w[0] == '#' || w[0] == '@');
        if !marked {
            let copy = vstd::slice::slice_to_vec(w.as_slice());
            let ghost old_r = r@;
            r.push(copy);
            proof {
                assert(char_views(r@) =~= char_views(old_r).push(copy@));
            }
        }
        i += 1;
    }
    assert(char_views(ws@).take(ws.len() as int) =~= char_views(ws@));
    r
}

/// The names mentioned with marker `m` in `ws`.
fn marked_names_of(ws: &Vec<Vec<char>>, m: char) -> (r: Vec<Vec<char>>)
    ensures
        char_views(r@) == marked_names(char_views(ws@), m),
{
    let mut r: Vec<Vec<char>> = Vec::new();
    let mut i: usize = 0;
    while i < ws.len()
        invariant
            0 <= i <= ws.len(),
            char_views(r@) =~= marked_names(char_views(ws@).take(i as int), m),
        decreases ws.len() - i,
    {
        proof {
            assert(char_views(ws@).take(i + 1).drop_last() =~= char_views(ws@).take(i as int));
        }
        let w = &ws[i];
        if w.len() > 1 && w[0] == m {
            let mut name: Vec<char> = Vec::new();
            let mut k: usize = 1;
            while k < w.len()
                invariant
                    1 <= k <= w.len(),
                    name@ =~= w@.subrange(1, k as int),
                decreases w.len() - k,
            {
                name.push(w[k]);
                k += 1;
            }
            assert(name@ =~= w@.drop_first());
            let ghost old_r = r@;
            r.push(name);
            proof {
                assert(char_views(r@) =~= char_views(old_r).push(name@));
            }
        }
        i += 1;
    }
    assert(char_views(ws@).take(ws.len() as int) =~= char_views(ws@));
    r
}

/// `lines` without blank lines at either end.
fn trim_empty_edge_lines(lines: &Vec<Vec<char>>) -> (r: Vec<Vec<char>>)
    ensures
        char_views(r@) == trim_blank_edges(char_views(lines@)),
{
    let ghost ls = char_views(lines@);
    let n = lines.len();
    let mut i: usize = 0;
    while i < n && is_blank_chars(lines[i].as_slice())
        invariant
            0 <= i <= n,
            n == lines.len(),
            ls == char_views(lines@),
            forall|k: int| 0 <= k < i ==> is_blank(#[trigger] ls[k]),
        decreases n - i,
    {
        i += 1;
    }
    let mut j: usize = n;
    while j > i && is_blank_chars(lines[j - 1].as_slice())
        invariant
            i <= j <= n,
            n == lines.len(),
            ls == char_views(lines@),
            forall|k: int| j <= k < n ==> is_blank(#[trigger] ls[k]),
        decreases j - i,
    {
        j -= 1;
    }
    proof {
        lemma_drop_leading_blank_skip(ls, i as int);
        let t = ls.skip(i as int);
        assert forall|k: int| j - i <= k < t.len() implies is_blank(#[trigger] t[k]) by {
            assert(t[k] == ls[k + i]);
        }
        if j > i {
            assert(t[j - i - 1] == ls[j - 1]);
        }
        lemma_drop_trailing_blank_take(t, j - i);
    }
    let mut r: Vec<Vec<char>> = Vec::new();
    let mut k: usize = i;
    while k < j
        invariant
            i <= k <= j <= n,
            n == lines.len(),
            ls == char_views(lines@),
            char_views(r@) =~= ls.subrange(i as int, k as int),
        decreases j - k,
    {
        let copy = vstd::slice::slice_to_vec(lines[k].as_slice());
        let ghost old_r = r@;
        r.push(copy);
        proof {
            assert(char_views(r@) =~= char_views(old_r).push(copy@));
        }
        k += 1;
    }
    assert(ls.skip(i as int).take(j - i) =~= ls.subrange(i as int, j as int));
    r
}

/// The tags, the people and the remaining text of `chars`.
fn split_metadata(chars: &Vec<char>) -> (r: (Vec<char>, Vec<Vec<char>>, Vec<Vec<char>>))
    ensures
        r.0@ == content_without_metadata(chars@),
        char_views(r.1@) == tags_in(chars@),
        char_views(r.2@) == people_in(chars@),
{
    let lines = split_chars(chars.as_slice(), Separator::LineBreak);
    let ghost line_views = char_views(lines@);
    let mut cleaned: Vec<Vec<char>> = Vec::new();
    let mut i: usize = 0;
    while i < lines.len()
        invariant
            0 <= i <= lines.len(),
            line_views == char_views(lines@),
            char_views(cleaned@) =~= cleaned_lines(line_views).take(i as int),
        decreases lines.len() - i,
    {
        let ws = words_of(lines[i].as_slice());
        let plain = plain_words_of(&ws);
        let text = join_chars(&plain, ' ');
        let ghost old_cleaned = cleaned@;
        cleaned.push(text);
        proof {
            assert(char_views(cleaned@) =~= char_views(old_cleaned).push(text@));
            assert(line_views[i as int] == lines@[i as int]@);
        }
        i += 1;
    }
    assert(cleaned_lines(line_views).take(lines.len() as int) =~= cleaned_lines(line_views));
    assert(line_views == split_pieces(chars@, Separator::LineBreak));
    let kept = trim_empty_edge_lines(&cleaned);
    let joined = join_chars(&kept, '\n');
    let content = trim_chars(joined.as_slice());
    let all_words = words_of(chars.as_slice());
    let tags = marked_names_of(&all_words, '#');
    let people = marked_names_of(&all_words, '@');
    (content, tags, people)
}

/// Extracts `#tag` and `@person` words from `input`; returns the remaining
/// text, the tags and the people, each list in order of appearance.
///
/// A lone `#` or `@` is dropped without producing an empty name.
pub fn parse_tags_and_people(input: &str) -> (r: (String, Vec<String>, Vec<String>))
    ensures
        r.0@ == content_without_metadata(input@),
        string_views(r.1@) == tags_in(input@),
        string_views(r.2@) == people_in(input@),
{
    let chars = chars_of(input);
    let (content, tags, people) = split_metadata(&chars);
    (string_of(content.as_slice()), strings_of(&tags), strings_of(&people))
}

/// The priority marker at the start of `chars` and the text after it.
fn priority_of(chars: &[char]) -> (r: (Vec<char>, Priority))
    ensures
        r.0@ == parsed_priority(chars@).0,
        r.1 == parsed_priority(chars@).1,
{
    let t = trim_chars(chars);
    let n = t.len();
    let double = n >= 2 && ((t[0] == '!' && t[1] == '!') || (t[0] == '！' && t[1] == '！'));
    let single = n >= 1 && (t[0] == '!' || t[0] == '！');
    proof {
        if n >= 2 {
            assert(starts_with(t@, seq!['!', '!']) == (t@[0] == '!' && t@[1] == '!')) by {
                if t@[0] == '!' && t@[1] == '!' {
                    assert(t@.take(2) =~= seq!['!', '!']);
                }
                if starts_with(t@, seq!['!', '!']) {
                    assert(t@.take(2)[0] == t@[0] && t@.take(2)[1] == t@[1]);
                }
            }
            assert(starts_with(t@, seq!['！', '！']) == (t@[0] == '！' && t@[1] == '！')) by {
                if t@[0] == '！' && t@[1] == '！' {
                    assert(t@.take(2) =~= seq!['！', '！']);
                }
                if starts_with(t@, seq!['！', '！']) {
                    assert(t@.take(2)[0] == t@[0] && t@.take(2)[1] == t@[1]);
                }
            }
        }
        if n >= 1 {
            assert(starts_with(t@, seq!['!']) == (t@[0] == '!')) by {
                if t@[0] == '!' {
                    assert(t@.take(1) =~= seq!['!']);
                }
                if starts_with(t@, seq!['!']) {
                    assert(t@.take(1)[0] == t@[0]);
                }
            }
            assert(starts_with(t@, seq!['！']) == (t@[0] == '！')) by {
                if t@[0] == '！' {
                    assert(t@.take(1) =~= seq!['！']);
                }
                if starts_with(t@, seq!['！']) {
                    assert(t@.take(1)[0] == t@[0]);
                }
            }
        }
    }
    if double {
        let rest = vstd::slice::slice_subrange(t.as_slice(), 2, n);
        (trim_start_chars(rest), Priority::High)
    } else if single {
        let rest = vstd::slice::slice_subrange(t.as_slice(), 1, n);
        (trim_start_chars(rest), Priority::Medium)
    } else {
        (t, Priority::Low)
    }
}

/// Reads the priority written at the start of `input`: `!!` or `！！` gives
/// [`Priority::High`], `!` or `！` gives [`Priority::Medium`], no marker gives
/// [`Priority::Low`]. Returns the trimmed text without the marker.
pub fn parse_priority(input: &str) -> (r: (String, Priority))
    ensures
        r.0@ == parsed_priority(input@).0,
        r.1 == parsed_priority(input@).1,
{
    let chars = chars_of(input);
    let (rest, priority) = priority_of(chars.as_slice());
    (string_of(rest.as_slice()), priority)
}

/// Parses a task line: tags and people are taken out first, then the
/// priority marker is read from what remains. Returns (content, priority,
/// tags, people).
pub fn parse_task_input(input: &str) -> (r: (String, Priority, Vec<String>, Vec<String>))
    ensures
        r.0@ == parsed_priority(content_without_metadata(input@)).0,
        r.1 == parsed_priority(content_without_metadata(input@)).1,
        string_views(r.2@) == tags_in(input@),
        string_views(r.3@) == people_in(input@),
{
    let chars = chars_of(input);
    let (content, tags, people) = split_metadata(&chars);
    let (rest, priority) = priority_of(content.as_slice());
    (string_of(rest.as_slice()), priority, strings_of(&tags), strings_of(&people))
}

/// Parses a record line: returns (content, tags, people).
pub fn parse_record_input(input: &str) -> (r: (String, Vec<String>, Vec<String>))
    ensures
        r.0@ == content_without_metadata(input@),
        string_views(r.1@) == tags_in(input@),
        string_views(r.2@) == people_in(input@),
{
    parse_tags_and_people(input)
}

/// `None` for blank text, else the trimmed text.
fn normalize_optional_text(input: &[char]) -> (r: Option<String>)
    ensures
        optional_view(r) == normalized_optional(input@),
{
    let trimmed = trim_chars(input);
    if trimmed.len() == 0 {
        None
    } else {
        Some(string_of(trimmed.as_slice()))
    }
}

/// `values` with every repeated value removed after its first occurrence.
fn dedup_preserving_order(values: &Vec<Vec<char>>) -> (r: Vec<Vec<char>>)
    ensures
        char_views(r@) == dedup(char_views(values@)),
{
    let ghost vs = char_views(values@);
    let mut r: Vec<Vec<char>> = Vec::new();
    let mut i: usize = 0;
    while i < values.len()
        invariant
            0 <= i <= values.len(),
            vs == char_views(values@),
            char_views(r@) =~= dedup(vs.take(i as int)),
        decreases values.len() - i,
    {
        proof {
            assert(vs.take(i + 1).drop_last() =~= vs.take(i as int));
        }
        let mut seen = false;
        let mut k: usize = 0;
        while k < r.len()
            invariant
                0 <= k <= r.len(),
                i < values.len(),
                seen == exists|x: int| 0 <= x < k && char_views(r@)[x] == values@[i as int]@,
            decreases r.len() - k,
        {
            proof {
                assert(char_views(r@)[k as int] == r@[k as int]@);
            }
            if chars_equal(r[k].as_slice(), values[i].as_slice()) {
                seen = true;
            }
            k += 1;
        }
        proof {
            let rv = char_views(r@);
            if seen {
                let x = choose|x: int| 0 <= x < k && rv[x] == values@[i as int]@;
                assert(rv.contains(vs[i as int]));
            } else {
                assert forall|x: int| 0 <= x < rv.len() implies rv[x] != vs[i as int] by {}
                assert(!rv.contains(vs[i as int]));
            }
        }
        if !seen {
            let copy = vstd::slice::slice_to_vec(values[i].as_slice());
            let ghost old_r = r@;
            r.push(copy);
            proof {
                assert(char_views(r@) =~= char_views(old_r).push(copy@));
            }
        }
        i += 1;
    }
    assert(vs.take(values.len() as int) =~= vs);
    r
}

/// Parses a record's title and content together: the title and content lose
/// their tag and person words, a blank title becomes `None`, and the tags and
/// people of both are merged, title first, without repeats.
pub fn parse_record_fields(title: Option<&str>, content: &str) -> (r: ParsedRecordFields)
    ensures
        optional_view(r.title) == normalized_optional(content_without_metadata(optional_text(title))),
        r.content@ == content_without_metadata(content@),
        string_views(r.tags@) == dedup(tags_in(optional_text(title)) + tags_in(content@)),
        string_views(r.people@) == dedup(people_in(optional_text(title)) + people_in(content@)),
{
    let title_chars = match title {
        Some(t) => chars_of(t),
        None => Vec::new(),
    };
    assert(title_chars@ == optional_text(title));
    let (clean_title, mut title_tags, mut title_people) = split_metadata(&title_chars);
    let content_chars = chars_of(content);
    let (clean_content, mut content_tags, mut content_people) = split_metadata(&content_chars);
    let ghost tt = char_views(title_tags@);
    let ghost ct = char_views(content_tags@);
    let ghost tp = char_views(title_people@);
    let ghost cp = char_views(content_people@);
    title_tags.append(&mut content_tags);
    title_people.append(&mut content_people);
    assert(char_views(title_tags@) =~= tt + ct);
    assert(char_views(title_people@) =~= tp + cp);
    let tags = dedup_preserving_order(&title_tags);
    let people = dedup_preserving_order(&title_people);
    ParsedRecordFields {
        title: normalize_optional_text(clean_title.as_slice()),
        content: string_of(clean_content.as_slice()),
        tags: strings_of(&tags),
        people: strings_of(&people),
    }
}

/// `#tag` words for `tags` then `@person` words for `people`.
fn metadata_words_of(tags: &Vec<Vec<char>>, people: &Vec<Vec<char>>) -> (r: Vec<Vec<char>>)
    ensures
        char_views(r@) == metadata_words(char_views(tags@), char_views(people@)),
{
    let ghost target = metadata_words(char_views(tags@), char_views(people@));
    let mut r: Vec<Vec<char>> = Vec::new();
    let mut i: usize = 0;
    while i < tags.len()
        invariant
            0 <= i <= tags.len(),
            target == metadata_words(char_views(tags@), char_views(people@)),
            char_views(r@) =~= target.take(i as int),
        decreases tags.len() - i,
    {
        let mut w: Vec<char> = Vec::new();
        w.push('#');
        let mut k: usize = 0;
        while k < tags[i].len()
            invariant
                0 <= k <= tags@[i as int]@.len(),
                i < tags.len(),
                w@ =~= seq!['#'] + tags@[i as int]@.take(k as int),
            decreases tags@[i as int]@.len() - k,
        {
            w.push(tags[i][k]);
            k += 1;
        }
        assert(tags@[i as int]@.take(k as int) =~= tags@[i as int]@);
        let ghost old_r = r@;
        r.push(w);
        proof {
            assert(char_views(r@) =~= char_views(old_r).push(w@));
        }
        i += 1;
    }
    let mut j: usize = 0;
    while j < people.len()
        invariant
            0 <= j <= people.len(),
            i == tags.len(),
            target == metadata_words(char_views(tags@), char_views(people@)),
            char_views(r@) =~= target.take(i + j),
        decreases people.len() - j,
    {
        let mut w: Vec<char> = Vec::new();
        w.push('@');
        let mut k: usize = 0;
        while k < people[j].len()
            invariant
                0 <= k <= people@[j as int]@.len(),
                j < people.len(),
                w@ =~= seq!['@'] + people@[j as int]@.take(k as int),
            decreases people@[j as int]@.len() - k,
        {
            w.push(people[j][k]);
            k += 1;
        }
        assert(people@[j as int]@.take(k as int) =~= people@[j as int]@);
        let ghost old_r = r@;
        r.push(w);
        proof {
            assert(char_views(r@) =~= char_views(old_r).push(w@));
        }
        j += 1;
    }
    assert(target.take(i + j) =~= target);
    r
}

/// Writes `content` back together with its tags and people: the trimmed
/// content, then on a new line `#tag` words followed by `@person` words,
/// separated by spaces. Either part may be absent.
pub fn compose_content_with_metadata(content: &str, tags: &[String], people: &[String]) -> (r:
    String)
    ensures
        r@ == composed_content(content@, string_views(tags@), string_views(people@)),
{
    let tag_chars = char_vectors_of(tags);
    let people_chars = char_vectors_of(people);
    let items = metadata_words_of(&tag_chars, &people_chars);
    let metadata = join_chars(&items, ' ');
    let content_chars = chars_of(content);
    let trimmed = trim_chars(content_chars.as_slice());
    if trimmed.len() == 0 {
        string_of(metadata.as_slice())
    } else if metadata.len() == 0 {
        string_of(trimmed.as_slice())
    } else {
        let mut out = trimmed;
        out.push('\n');
        let mut k: usize = 0;
        let ghost before = out@;
        while k < metadata.len()
            invariant
                0 <= k <= metadata.len(),
                out@ =~= before + metadata@.take(k as int),
            decreases metadata.len() - k,
        {
            out.push(metadata[k]);
            k += 1;
        }
        assert(metadata@.take(k as int) =~= metadata@);
        string_of(out.as_slice())
    }
}

/// The members of a list written with `,`, `，` or white space between
/// them, trimmed, empty ones dropped.
fn list_items_of(input: &str) -> (r: Vec<String>)
    ensures
        string_views(r@) == list_items(input@),
{
    let chars = chars_of(input);
    let pieces = split_chars(chars.as_slice(), Separator::ListDelimiter);
    let ghost trimmed = char_views(pieces@).map_values(|p: Seq<char>| trim(p));
    let mut r: Vec<Vec<char>> = Vec::new();
    let mut i: usize = 0;
    while i < pieces.len()
        invariant
            0 <= i <= pieces.len(),
            trimmed == char_views(pieces@).map_values(|p: Seq<char>| trim(p)),
            char_views(r@) =~= non_empty(trimmed.take(i as int)),
        decreases pieces.len() - i,
    {
        proof {
            assert(trimmed.take(i + 1).drop_last() =~= trimmed.take(i as int));
        }
        let t = trim_chars(pieces[i].as_slice());
        if t.len() > 0 {
            let ghost old_r = r@;
            r.push(t);
            proof {
                assert(char_views(r@) =~= char_views(old_r).push(t@));
            }
        }
        i += 1;
    }
    assert(trimmed.take(pieces.len() as int) =~= trimmed);
    strings_of(&r)
}

/// Reads a tag list such as `work, urgent  project` or `工作，紧急`.
pub fn parse_tag_list(input: &str) -> (r: Vec<String>)
    ensures
        string_views(r@) == list_items(input@),
{
    list_items_of(input)
}

/// Reads a person list such as `john, jane` or `张三，李四`.
pub fn parse_person_list(input: &str) -> (r: Vec<String>)
    ensures
        string_views(r@) == list_items(input@),
{
    list_items_of(input)
}

/// Removing repeats keeps each name once and loses none: the result has no
/// duplicates and holds the same names as `s`.
pub proof fn lemma_dedup_unique(s: Seq<Seq<char>>)
    ensures
        dedup(s).no_duplicates(),
        dedup(s).to_set() == s.to_set(),
    decreases s.len(),
{
    if s.len() > 0 {
        let init = s.drop_last();
        lemma_dedup_unique(init);
        let d = dedup(init);
        assert(s =~= init.push(s.last()));
        init.lemma_push_to_set_commute(s.last());
        if !d.contains(s.last()) {
            d.lemma_push_to_set_commute(s.last());
            assert forall|i: int, j: int| 0 <= i < j < d.push(s.last()).len() implies d.push(
                s.last(),
            )[i] != d.push(s.last())[j] by {
                if j == d.len() {
                    assert(d.contains(d[i]));
                }
            }
        } else {
            assert(d.to_set() =~= d.to_set().insert(s.last()));
        }
    } else {
        assert(dedup(s).to_set() =~= s.to_set());
    }
}

/// The names marked in two runs of words are those of each run, in order.
proof fn lemma_marked_names_concat(a: Seq<Seq<char>>, b: Seq<Seq<char>>, m: char)
    ensures
        marked_names(a + b, m) == marked_names(a, m) + marked_names(b, m),
    decreases b.len(),
{
    if b.len() == 0 {
        assert(a + b =~= a);
        assert(marked_names(a, m) + marked_names(b, m) =~= marked_names(a, m));
    } else {
        lemma_marked_names_concat(a, b.drop_last(), m);
        assert((a + b).drop_last() =~= a + b.drop_last());
        assert((a + b).last() == b.last());
        if b.last().len() > 1 && b.last()[0] == m {
            assert((marked_names(a, m) + marked_names(b.drop_last(), m)).push(b.last().drop_first())
                =~= marked_names(a, m) + marked_names(b.drop_last(), m).push(b.last().drop_first()));
        }
    }
}

/// Names prefixed with `m` are marked with `m` and with no other marker.
proof fn lemma_marked_prefixed(names: Seq<Seq<char>>, m: char, other: char)
    requires
        m != other,
        forall|i: int| 0 <= i < names.len() ==> (#[trigger] names[i]).len() > 0,
    ensures
        marked_names(names.map_values(|n: Seq<char>| seq![m] + n), m) == names,
        marked_names(names.map_values(|n: Seq<char>| seq![m] + n), other) == Seq::<Seq<char>>::empty(),
    decreases names.len(),
{
    let ws = names.map_values(|n: Seq<char>| seq![m] + n);
    if names.len() > 0 {
        let init = names.drop_last();
        lemma_marked_prefixed(init, m, other);
        assert(ws.drop_last() =~= init.map_values(|n: Seq<char>| seq![m] + n));
        assert(ws.last() == seq![m] + names.last());
        assert((seq![m] + names.last()).drop_first() =~= names.last());
        assert(init.push(names.last()) =~= names);
    } else {
        assert(ws =~= Seq::<Seq<char>>::empty());
    }
}

/// A tag or person name that compose can write and parsing can read back:
/// non-empty, without white space.
pub open spec fn is_plain_name(n: Seq<char>) -> bool {
    is_word(n)
}

/// The lines of `s` reduced to their plain words, without blank lines at
/// either end: what `content_without_metadata` joins and trims.
spec fn kept_lines(s: Seq<char>) -> Seq<Seq<char>> {
    trim_blank_edges(cleaned_lines(split_pieces(s, Separator::LineBreak)))
}

/// Reducing lines distributes over concatenation.
proof fn lemma_cleaned_lines_concat(a: Seq<Seq<char>>, b: Seq<Seq<char>>)
    ensures
        cleaned_lines(a + b) == cleaned_lines(a) + cleaned_lines(b),
{
    assert(cleaned_lines(a + b) =~= cleaned_lines(a) + cleaned_lines(b));
}

/// An empty line reduces to an empty line.
proof fn lemma_line_text_empty()
    ensures
        line_text(Seq::<char>::empty()) == Seq::<char>::empty(),
{
    lemma_words_empty();
    assert(plain_words(Seq::<Seq<char>>::empty()) =~= Seq::<Seq<char>>::empty());
}

/// White space at either end of a line does not change what it reduces to.
proof fn lemma_line_text_pad(c: char, x: Seq<char>)
    requires
        is_white_space(c),
    ensures
        line_text(seq![c] + x) == line_text(x),
        line_text(x.push(c)) == line_text(x),
{
    lemma_words_concat(Seq::empty(), c, x);
    lemma_words_concat(x, c, Seq::empty());
    lemma_words_empty();
    assert(Seq::<char>::empty() + seq![c] + x =~= seq![c] + x);
    assert(x + seq![c] + Seq::<char>::empty() =~= x.push(c));
    assert(Seq::<Seq<char>>::empty() + words(x) =~= words(x));
    assert(words(x) + Seq::<Seq<char>>::empty() =~= words(x));
}

/// The empty text is one empty line.
proof fn lemma_split_pieces_empty(kind: Separator)
    ensures
        split_pieces(Seq::<char>::empty(), kind) == seq![Seq::<char>::empty()],
{
    assert(split_pieces(Seq::<char>::empty(), kind) =~= seq![Seq::<char>::empty()]);
}

/// A white-space character other than a line feed at the start of a text
/// leaves its reduced lines as they are.
proof fn lemma_cleaned_lines_pad_front(c: char, x: Seq<char>)
    requires
        is_white_space(c),
        c != '\n',
    ensures
        cleaned_lines(split_pieces(seq![c] + x, Separator::LineBreak)) == cleaned_lines(
            split_pieces(x, Separator::LineBreak),
        ),
    decreases x.len(),
{
    let k = Separator::LineBreak;
    if exists|j: int| 0 <= j < x.len() && x[j] == '\n' {
        let j = choose|j: int| 0 <= j < x.len() && x[j] == '\n';
        let a = x.take(j);
        let b = x.skip(j + 1);
        assert(x =~= a + seq!['\n'] + b);
        assert(seq![c] + x =~= (seq![c] + a) + seq!['\n'] + b);
        lemma_split_pieces_concat(a, '\n', b, k);
        lemma_split_pieces_concat(seq![c] + a, '\n', b, k);
        lemma_cleaned_lines_pad_front(c, a);
        lemma_cleaned_lines_concat(split_pieces(a, k), split_pieces(b, k));
        lemma_cleaned_lines_concat(split_pieces(seq![c] + a, k), split_pieces(b, k));
    } else {
        let y = seq![c] + x;
        assert forall|i: int| 0 <= i < y.len() implies !is_separator(k, #[trigger] y[i]) by {
            if i > 0 {
                assert(y[i] == x[i - 1]);
            }
        }
        lemma_split_state_separator_free(x, k);
        lemma_split_state_separator_free(y, k);
        lemma_line_text_pad(c, x);
        assert(cleaned_lines(split_pieces(y, k)) =~= cleaned_lines(split_pieces(x, k)));
    }
}

/// A white-space character other than a line feed at the end of a text
/// leaves its reduced lines as they are.
proof fn lemma_cleaned_lines_pad_back(c: char, x: Seq<char>)
    requires
        is_white_space(c),
        c != '\n',
    ensures
        cleaned_lines(split_pieces(x.push(c), Separator::LineBreak)) == cleaned_lines(
            split_pieces(x, Separator::LineBreak),
        ),
    decreases x.len(),
{
    let k = Separator::LineBreak;
    if exists|j: int| 0 <= j < x.len() && x[j] == '\n' {
        let j = choose|j: int| 0 <= j < x.len() && x[j] == '\n';
        let a = x.take(j);
        let b = x.skip(j + 1);
        assert(x =~= a + seq!['\n'] + b);
        assert(x.push(c) =~= a + seq!['\n'] + b.push(c));
        lemma_split_pieces_concat(a, '\n', b, k);
        lemma_split_pieces_concat(a, '\n', b.push(c), k);
        lemma_cleaned_lines_pad_back(c, b);
        lemma_cleaned_lines_concat(split_pieces(a, k), split_pieces(b, k));
        lemma_cleaned_lines_concat(split_pieces(a, k), split_pieces(b.push(c), k));
    } else {
        let y = x.push(c);
        assert forall|i: int| 0 <= i < y.len() implies !is_separator(k, #[trigger] y[i]) by {
            if i < x.len() {
                assert(y[i] == x[i]);
            }
        }
        lemma_split_state_separator_free(x, k);
        lemma_split_state_separator_free(y, k);
        lemma_line_text_pad(c, x);
        assert(cleaned_lines(split_pieces(y, k)) =~= cleaned_lines(split_pieces(x, k)));
    }
}

/// Leading white space changes nothing once leading blank lines are dropped.
proof fn lemma_leading_lines_trim_start(s: Seq<char>)
    ensures
        drop_leading_blank(cleaned_lines(split_pieces(trim_start(s), Separator::LineBreak)))
            == drop_leading_blank(cleaned_lines(split_pieces(s, Separator::LineBreak))),
    decreases s.len(),
{
    let k = Separator::LineBreak;
    if s.len() > 0 && is_white_space(s[0]) {
        let c = s[0];
        let x = s.drop_first();
        lemma_leading_lines_trim_start(x);
        assert(s =~= seq![c] + x);
        if c == '\n' {
            assert(s =~= Seq::<char>::empty() + seq![c] + x);
            lemma_split_pieces_concat(Seq::<char>::empty(), c, x, k);
            lemma_split_pieces_empty(k);
            lemma_cleaned_lines_concat(seq![Seq::<char>::empty()], split_pieces(x, k));
            lemma_line_text_empty();
            let ls = cleaned_lines(split_pieces(s, k));
            assert(ls[0] =~= Seq::<char>::empty());
            assert(is_blank(ls[0]));
            assert(ls.drop_first() =~= cleaned_lines(split_pieces(x, k)));
        } else {
            lemma_cleaned_lines_pad_front(c, x);
        }
    }
}

/// Dropping leading blank lines of lines that end with a blank one.
proof fn lemma_drop_leading_blank_push(ls: Seq<Seq<char>>, b: Seq<char>)
    requires
        is_blank(b),
    ensures
        drop_leading_blank(ls.push(b)) == drop_leading_blank(ls).push(b) || (drop_leading_blank(ls).len()
            == 0 && drop_leading_blank(ls.push(b)).len() == 0),
    decreases ls.len(),
{
    if ls.len() == 0 {
        let one = ls.push(b);
        assert(one.drop_first() =~= Seq::<Seq<char>>::empty());
        assert(one[0] == b);
        assert(drop_leading_blank(one) == drop_leading_blank(one.drop_first()));
        assert(drop_leading_blank(ls) == ls);
    } else if is_blank(ls[0]) {
        lemma_drop_leading_blank_push(ls.drop_first(), b);
        assert(ls.push(b).drop_first() =~= ls.drop_first().push(b));
        assert(ls.push(b)[0] == ls[0]);
        assert(drop_leading_blank(ls) == drop_leading_blank(ls.drop_first()));
        assert(drop_leading_blank(ls.push(b)) == drop_leading_blank(ls.push(b).drop_first()));
    } else {
        assert(ls.push(b)[0] == ls[0]);
    }
}

/// A blank last line changes nothing once blank edge lines are dropped.
proof fn lemma_trim_blank_edges_push(ls: Seq<Seq<char>>, b: Seq<char>)
    requires
        is_blank(b),
    ensures
        trim_blank_edges(ls.push(b)) == trim_blank_edges(ls),
{
    lemma_drop_leading_blank_push(ls, b);
    let d = drop_leading_blank(ls);
    if drop_leading_blank(ls.push(b)) == d.push(b) {
        assert(d.push(b).drop_last() =~= d);
        assert(d.push(b).last() == b);
    } else {
        assert(drop_leading_blank(ls.push(b)) =~= Seq::<Seq<char>>::empty());
        assert(d =~= Seq::<Seq<char>>::empty());
    }
}

/// One trailing white-space character changes nothing in the kept lines.
proof fn lemma_kept_lines_drop_last(s: Seq<char>)
    requires
        s.len() > 0,
        is_white_space(s.last()),
    ensures
        kept_lines(s) == kept_lines(s.drop_last()),
{
    let k = Separator::LineBreak;
    let c = s.last();
    let x = s.drop_last();
    if c == '\n' {
        assert(s =~= x + seq![c] + Seq::<char>::empty());
        lemma_split_pieces_concat(x, c, Seq::<char>::empty(), k);
        lemma_split_pieces_empty(k);
        lemma_cleaned_lines_concat(split_pieces(x, k), seq![Seq::<char>::empty()]);
        lemma_line_text_empty();
        let cx = cleaned_lines(split_pieces(x, k));
        assert(cleaned_lines(split_pieces(s, k)) =~= cx.push(Seq::<char>::empty()));
        lemma_trim_blank_edges_push(cx, Seq::<char>::empty());
    } else {
        assert(s =~= x.push(c));
        lemma_cleaned_lines_pad_back(c, x);
    }
}

/// Trailing white space changes nothing in the kept lines.
proof fn lemma_kept_lines_trim_end(s: Seq<char>)
    ensures
        kept_lines(trim_end(s)) == kept_lines(s),
    decreases s.len(),
{
    if s.len() > 0 && is_white_space(s.last()) {
        lemma_kept_lines_trim_end(s.drop_last());
        lemma_kept_lines_drop_last(s);
    }
}

/// Trimming a text changes nothing in the kept lines.
proof fn lemma_kept_lines_trim(s: Seq<char>)
    ensures
        kept_lines(trim(s)) == kept_lines(s),
{
    lemma_leading_lines_trim_start(s);
    lemma_kept_lines_trim_end(trim_start(s));
}

/// Words joined by spaces hold no line feed.
proof fn lemma_join_words_one_line(ws: Seq<Seq<char>>)
    requires
        forall|i: int| 0 <= i < ws.len() ==> is_word(#[trigger] ws[i]),
    ensures
        forall|k: int| 0 <= k < join(ws, ' ').len() ==> #[trigger] join(ws, ' ')[k] != '\n',
    decreases ws.len(),
{
    if ws.len() == 1 {
        assert(is_word(ws[0]));
        assert(is_white_space('\n'));
    } else if ws.len() > 1 {
        let init = ws.drop_last();
        assert forall|i: int| 0 <= i < init.len() implies is_word(#[trigger] init[i]) by {
            assert(init[i] == ws[i]);
        }
        lemma_join_words_one_line(init);
        let j = join(init, ' ');
        let w = ws.last();
        assert(is_word(w));
        assert(is_white_space('\n'));
        assert forall|k: int| 0 <= k < join(ws, ' ').len() implies #[trigger] join(ws, ' ')[k] != '\n' by {
            if k < j.len() {
                assert(join(ws, ' ')[k] == j[k]);
            } else if k == j.len() {
                assert(join(ws, ' ')[k] == ' ');
            } else {
                assert(join(ws, ' ')[k] == w[k - j.len() - 1]);
            }
        }
    }
}

/// A run of tag and person words has no plain word.
proof fn lemma_plain_words_of_metadata(ws: Seq<Seq<char>>)
    requires
        forall|i: int| 0 <= i < ws.len() ==> is_metadata_word(#[trigger] ws[i]),
    ensures
        plain_words(ws) == Seq::<Seq<char>>::empty(),
    decreases ws.len(),
{
    if ws.len() > 0 {
        let init = ws.drop_last();
        assert forall|i: int| 0 <= i < init.len() implies is_metadata_word(#[trigger] init[i]) by {
            assert(init[i] == ws[i]);
        }
        lemma_plain_words_of_metadata(init);
        assert(is_metadata_word(ws[ws.len() - 1]));
    }
}

/// A single line with no plain word keeps no line.
proof fn lemma_kept_lines_no_plain_line(x: Seq<char>)
    requires
        forall|k: int| 0 <= k < x.len() ==> #[trigger] x[k] != '\n',
        line_text(x) == Seq::<char>::empty(),
    ensures
        kept_lines(x) == Seq::<Seq<char>>::empty(),
{
    let k = Separator::LineBreak;
    lemma_split_state_separator_free(x, k);
    assert(cleaned_lines(split_pieces(x, k)) =~= Seq::<Seq<char>>::empty().push(Seq::<char>::empty()));
    lemma_trim_blank_edges_push(Seq::<Seq<char>>::empty(), Seq::<char>::empty());
    assert(drop_leading_blank(Seq::<Seq<char>>::empty()) =~= Seq::<Seq<char>>::empty());
    assert(trim_blank_edges(Seq::<Seq<char>>::empty()) =~= Seq::<Seq<char>>::empty());
}

/// Writing tags and people into a text with `compose_content_with_metadata`
/// and reading the text back gives the text as it reads on its own, and finds
/// the text's own tags and people followed by the written ones, in order.
pub proof fn lemma_compose_then_parse(content: Seq<char>, tags: Seq<Seq<char>>, people: Seq<Seq<char>>)
    requires
        forall|i: int| 0 <= i < tags.len() ==> is_plain_name(#[trigger] tags[i]),
        forall|i: int| 0 <= i < people.len() ==> is_plain_name(#[trigger] people[i]),
    ensures
        content_without_metadata(composed_content(content, tags, people)) == content_without_metadata(
            content,
        ),
        tags_in(composed_content(content, tags, people)) == tags_in(content) + tags,
        people_in(composed_content(content, tags, people)) == people_in(content) + people,
        dedup(tags_in(optional_text(None)) + tags_in(composed_content(content, tags, people)))
            == dedup(tags_in(content) + tags),
        dedup(people_in(optional_text(None)) + people_in(composed_content(content, tags, people)))
            == dedup(people_in(content) + people),
{
    let mw = metadata_words(tags, people);
    let tw = tags.map_values(|t: Seq<char>| seq!['#'] + t);
    let pw = people.map_values(|p: Seq<char>| seq!['@'] + p);
    assert(mw == tw + pw);
    assert forall|i: int| 0 <= i < mw.len() implies is_word(#[trigger] mw[i]) by {
        if i < tw.len() {
            assert(mw[i] == seq!['#'] + tags[i]);
            assert forall|k: int| 0 <= k < mw[i].len() implies !is_white_space(#[trigger] mw[i][k]) by {
                if k > 0 {
                    assert(mw[i][k] == tags[i][k - 1]);
                }
            }
        } else {
            assert(mw[i] == seq!['@'] + people[i - tw.len()]);
            assert forall|k: int| 0 <= k < mw[i].len() implies !is_white_space(#[trigger] mw[i][k]) by {
                if k > 0 {
                    assert(mw[i][k] == people[i - tw.len()][k - 1]);
                }
            }
        }
    }
    assert forall|i: int| 0 <= i < mw.len() implies is_metadata_word(#[trigger] mw[i]) by {
        if i < tw.len() {
            assert(mw[i] == seq!['#'] + tags[i]);
        } else {
            assert(mw[i] == seq!['@'] + people[i - tw.len()]);
        }
    }
    lemma_words_join(mw);
    lemma_plain_words_of_metadata(mw);
    lemma_join_words_one_line(mw);
    lemma_kept_lines_trim(content);
    lemma_line_text_empty();
    assert(line_text(join(mw, ' ')) == Seq::<char>::empty());
    lemma_marked_prefixed(tags, '#', '@');
    lemma_marked_prefixed(people, '@', '#');
    lemma_marked_names_concat(tw, pw, '#');
    lemma_marked_names_concat(tw, pw, '@');
    assert(marked_names(mw, '#') =~= tags);
    assert(marked_names(mw, '@') =~= people);
    let metadata = join(mw, ' ');
    let c = trim(content);
    lemma_words_trim(content);
    lemma_words_empty();
    assert(optional_text(None) =~= Seq::<char>::empty());
    assert(tags_in(optional_text(None)) =~= Seq::<Seq<char>>::empty());
    assert(people_in(optional_text(None)) =~= Seq::<Seq<char>>::empty());
    assert(Seq::<Seq<char>>::empty() + (tags_in(content) + tags) =~= tags_in(content) + tags);
    assert(Seq::<Seq<char>>::empty() + (people_in(content) + people) =~= people_in(content) + people);
    if c.len() == 0 {
        assert(c =~= Seq::<char>::empty());
        lemma_kept_lines_no_plain_line(c);
        lemma_kept_lines_no_plain_line(metadata);
        assert(words(content) =~= Seq::<Seq<char>>::empty());
        assert(Seq::<Seq<char>>::empty() + tags =~= tags);
        assert(Seq::<Seq<char>>::empty() + people =~= people);
    } else if metadata.len() == 0 {
        assert(metadata =~= Seq::<char>::empty());
        assert(mw =~= Seq::<Seq<char>>::empty());
        assert(tags.len() == 0 && people.len() == 0);
        assert(tags_in(content) + tags =~= tags_in(content));
        assert(people_in(content) + people =~= people_in(content));
    } else {
        lemma_words_concat(c, '\n', metadata);
        assert(c.push('\n') + metadata =~= c + seq!['\n'] + metadata);
        let k = Separator::LineBreak;
        lemma_split_pieces_concat(c, '\n', metadata, k);
        lemma_split_state_separator_free(metadata, k);
        assert(split_pieces(metadata, k) =~= seq![metadata]);
        lemma_cleaned_lines_concat(split_pieces(c, k), seq![metadata]);
        assert(cleaned_lines(split_pieces(c.push('\n') + metadata, k)) =~= cleaned_lines(
            split_pieces(c, k),
        ).push(Seq::<char>::empty()));
        lemma_trim_blank_edges_push(cleaned_lines(split_pieces(c, k)), Seq::<char>::empty());
        lemma_marked_names_concat(words(content), mw, '#');
        lemma_marked_names_concat(words(content), mw, '@');
    }
}

} // verus!
