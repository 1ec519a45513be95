//! Completion of `#tag` and `@person` words while the user types.
//!
//! Positions (the cursor, the range of the word being completed) are byte
//! offsets into the UTF-8 text, as the editor reports them.
use vstd::prelude::*;
use vstd::relations::{sorted_by, total_ordering};
use std::ops::Range;

use crate::models::MetadataCatalogEntry;
use crate::ordering::{
    lemma_name_le_antisymmetric, lemma_name_le_reflexive, lemma_name_le_total,
    lemma_name_le_transitive, lemma_sorted_permutation_unique, name_le, name_le_chars,
};
use crate::strings::{chars_of, lowercase, string_of, text_equals, to_lowercase_text};
use crate::unicode::{
    byte_len, is_ascii_alphanumeric, is_ascii_alphanumeric_char, is_white_space,
    is_whitespace_char, lemma_byte_len_add, lemma_byte_len_single, lemma_byte_len_take_mono, lemma_byte_len_take_strict, prefix_byte_offsets,
    text_byte_len,
};

verus! {

broadcast use vstd::seq_lib::group_to_multiset_ensures;

/// The largest number of candidates the menu offers.
pub const MAX_VISIBLE_MATCHES: usize = 6;

/// Whether a word names a tag or a person.
#[derive(Debug, Clone, Copy, PartialEq, Eq, Structural)]
pub enum MetadataKind {
    Tag,
    Person,
}

/// The character that introduces a word of kind `kind`.
pub open spec fn marker_of(kind: MetadataKind) -> char {
    match kind {
        MetadataKind::Tag => '#',
        MetadataKind::Person => '@',
    }
}

impl MetadataKind {
    /// `#` for tags, `@` for people.
    pub fn marker(self) -> (c: char)
        ensures
            c == marker_of(self),
    {
        match self {
            Self::Tag => '#',
            Self::Person => '@',
        }
    }
}

/// The tag or person word under the cursor: its kind, the byte range of the
/// whole word (marker included) and the part of it before the cursor.
#[derive(Debug, PartialEq, Eq)]
pub struct ActiveMetadataQuery {
    pub kind: MetadataKind,
    pub range: Range<usize>,
    pub query: String,
}

impl Clone for ActiveMetadataQuery {
    fn clone(&self) -> (r: Self)
        ensures
            query_view(r) == query_view(*self),
    {
        ActiveMetadataQuery {
            kind: self.kind,
            range: Range { start: self.range.start, end: self.range.end },
            query: self.query.clone(),
        }
    }
}

/// The text after a completion and the byte offset of the cursor in it.
#[derive(Debug, Clone, PartialEq, Eq)]
pub struct MetadataCompletionEdit {
    pub text: String,
    pub cursor: usize,
}

/// The mathematical content of an [`ActiveMetadataQuery`].
pub struct QueryView {
    pub kind: MetadataKind,
    pub start: int,
    pub end: int,
    pub query: Seq<char>,
}

/// The view of a query.
pub open spec fn query_view(q: ActiveMetadataQuery) -> QueryView {
    QueryView { kind: q.kind, start: q.range.start as int, end: q.range.end as int, query: q.query@ }
}

/// The view of an optional query.
pub open spec fn optional_query_view(q: Option<ActiveMetadataQuery>) -> Option<QueryView> {
    match q {
        Some(q) => Some(query_view(q)),
        None => None,
    }
}

/* ---------------------------------------------------------------------- */
/* Detecting the word under the cursor                                    */
/* ---------------------------------------------------------------------- */

/// `#` or `@`.
pub open spec fn is_metadata_marker(c: char) -> bool {
    c == '#' || c == '@'
}

/// A character that ends a tag or person word.
pub open spec fn ends_token(c: char) -> bool {
    is_white_space(c) || is_metadata_marker(c)
}

/// A character right before a marker that makes it part of a longer word
/// (as in an e-mail address), so that no completion is offered.
pub open spec fn blocks_inline_marker(c: char) -> bool {
    is_ascii_alphanumeric(c) || c == '_' || c == '#' || c == '@'
}

/// Byte offset `b` is where a character of `t` starts, or the end of `t`.
pub open spec fn is_char_boundary_at(t: Seq<char>, b: int) -> bool {
    exists|k: int| 0 <= k <= t.len() && byte_len(t.take(k)) == b
}

/// The character index at byte offset `b` (meaningful when `b` is a boundary).
pub open spec fn char_index_at(t: Seq<char>, b: int) -> int {
    choose|k: int| 0 <= k <= t.len() && byte_len(t.take(k)) == b
}

/// `k` is the number of whole characters of `t` that lie before byte offset
/// `cursor`: the cursor moved back to a character boundary.
pub open spec fn is_cursor_index(t: Seq<char>, cursor: int, k: int) -> bool {
    &&& 0 <= k <= t.len()
    &&& byte_len(t.take(k)) <= cursor
    &&& (k == t.len() || byte_len(t.take(k + 1)) > cursor)
}

/// The character index of the boundary at or before byte offset `cursor`.
pub open spec fn cursor_char_index(t: Seq<char>, cursor: int) -> int {
    choose|k: int| is_cursor_index(t, cursor, k)
}

/// Looking back from character index `k`, the index of the nearest marker,
/// unless white space comes first.
pub open spec fn marker_before(t: Seq<char>, k: int) -> Option<int>
    decreases k,
{
    if k <= 0 || k > t.len() {
        None
    } else if is_white_space(t[k - 1]) {
        None
    } else if is_metadata_marker(t[k - 1]) {
        Some(k - 1)
    } else {
        marker_before(t, k - 1)
    }
}

/// The index of the first character at or after `start` that ends a word,
/// or the length of `t`.
pub open spec fn token_end(t: Seq<char>, start: int) -> int
    decreases t.len() - start,
{
    if start < 0 || start >= t.len() {
        t.len() as int
    } else if ends_token(t[start]) {
        start
    } else {
        token_end(t, start + 1)
    }
}

/// The tag or person word that the cursor at byte offset `cursor` is in:
/// the nearest `#` or `@` before the cursor with no white space between,
/// not glued to a letter, digit, `_`, `#` or `@` before it. The range runs
/// from the marker to the end of the word; the query is the part of the
/// word between the marker and the cursor.
pub open spec fn detected_query(t: Seq<char>, cursor: int) -> Option<QueryView> {
    if t.len() == 0 {
        None
    } else {
        let k = cursor_char_index(t, cursor);
        match marker_before(t, k) {
            None => None,
            Some(m) => if m > 0 && blocks_inline_marker(t[m - 1]) {
                None
            } else {
                Some(
                    QueryView {
                        kind: if t[m] == '#' {
                            MetadataKind::Tag
                        } else {
                            MetadataKind::Person
                        },
                        start: byte_len(t.take(m)) as int,
                        end: byte_len(t.take(token_end(t, m + 1))) as int,
                        query: t.subrange(m + 1, k),
                    },
                )
            },
        }
    }
}

/// At most one character index lies at a given byte offset.
proof fn lemma_char_index_unique(t: Seq<char>, j: int, k: int)
    requires
        0 <= j <= t.len(),
        0 <= k <= t.len(),
        byte_len(t.take(j)) == byte_len(t.take(k)),
    ensures
        j == k,
{
    if j < k {
        lemma_byte_len_take_strict(t, j, k);
    } else if k < j {
        lemma_byte_len_take_strict(t, k, j);
    }
}

/// At most one character index fits a cursor.
proof fn lemma_cursor_index_unique(t: Seq<char>, cursor: int, j: int, k: int)
    requires
        is_cursor_index(t, cursor, j),
        is_cursor_index(t, cursor, k),
    ensures
        j == k,
{
    if j < k {
        lemma_byte_len_take_mono(t, j + 1, k);
    } else if k < j {
        lemma_byte_len_take_mono(t, k + 1, j);
    }
}

/// The characters between a marker found looking back and the start index
/// do not end a word.
proof fn lemma_marker_before_clear(t: Seq<char>, k: int, m: int)
    requires
        marker_before(t, k) == Some(m),
    ensures
        0 <= m < k <= t.len(),
        is_metadata_marker(t[m]),
        forall|i: int| m < i < k ==> !ends_token(#[trigger] t[i]),
    decreases k,
{
    if !(is_metadata_marker(t[k - 1])) {
        lemma_marker_before_clear(t, k - 1, m);
    }
}

/// A word that runs clear up to `k` ends at or after `k`.
proof fn lemma_token_end_at_least(t: Seq<char>, start: int, k: int)
    requires
        0 <= start <= k <= t.len(),
        forall|i: int| start <= i < k ==> !ends_token(#[trigger] t[i]),
    ensures
        k <= token_end(t, start) <= t.len(),
    decreases t.len() - start,
{
    if start < t.len() && start < k {
        lemma_token_end_at_least(t, start + 1, k);
    } else if start < t.len() {
        lemma_token_end_bound(t, start);
    }
}

/// A word ends within the text.
proof fn lemma_token_end_bound(t: Seq<char>, start: int)
    requires
        0 <= start <= t.len(),
    ensures
        start <= token_end(t, start) <= t.len(),
    decreases t.len() - start,
{
    if start < t.len() && !ends_token(t[start]) {
        lemma_token_end_bound(t, start + 1);
    }
}

/// A word runs clear from `start` to its end, where a character that ends
/// words stands, or the text ends.
proof fn lemma_token_end_stops(t: Seq<char>, start: int)
    requires
        0 <= start <= t.len(),
    ensures
        start <= token_end(t, start) <= t.len(),
        forall|i: int| start <= i < token_end(t, start) ==> !ends_token(#[trigger] t[i]),
        token_end(t, start) == t.len() || ends_token(t[token_end(t, start)]),
    decreases t.len() - start,
{
    if start < t.len() && !ends_token(t[start]) {
        lemma_token_end_stops(t, start + 1);
    }
}

/// From a prefix that fits before `cursor`, a character index for the
/// cursor exists.
proof fn lemma_cursor_index_from(t: Seq<char>, cursor: int, j: int)
    requires
        0 <= j <= t.len(),
        byte_len(t.take(j)) <= cursor,
    ensures
        exists|k: int| is_cursor_index(t, cursor, k),
    decreases t.len() - j,
{
    if j < t.len() && byte_len(t.take(j + 1)) <= cursor {
        lemma_cursor_index_from(t, cursor, j + 1);
    } else {
        assert(is_cursor_index(t, cursor, j));
    }
}

/// The word found under the cursor: it starts at a `#` or `@` that no
/// letter, digit, `_`, `#` or `@` is glued to, lies before the cursor with
/// no word end between, and runs on past the cursor to the first white
/// space, `#` or `@` after the marker, or to the end of the text. Its kind
/// is given by the marker, and its query is the text between the marker and
/// the cursor.
pub proof fn lemma_detected_word(t: Seq<char>, cursor: int)
    requires
        0 <= cursor,
    ensures
        detected_query(t, cursor) matches Some(q) ==> {
            let k = cursor_char_index(t, cursor);
            let m = char_index_at(t, q.start);
            let e = char_index_at(t, q.end);
            &&& is_cursor_index(t, cursor, k)
            &&& 0 <= m < k <= e <= t.len()
            &&& byte_len(t.take(m)) == q.start
            &&& byte_len(t.take(e)) == q.end
            &&& is_metadata_marker(t[m])
            &&& (m == 0 || !blocks_inline_marker(t[m - 1]))
            &&& q.kind == (if t[m] == '#' { MetadataKind::Tag } else { MetadataKind::Person })
            &&& q.query == t.subrange(m + 1, k)
            &&& forall|i: int| m < i < e ==> !ends_token(#[trigger] t[i])
            &&& (e == t.len() || ends_token(t[e]))
        },
{
    if let Some(q) = detected_query(t, cursor) {
        assert(byte_len(t.take(0)) == 0) by {
            assert(t.take(0) =~= Seq::<char>::empty());
        }
        lemma_cursor_index_from(t, cursor, 0);
        let k = cursor_char_index(t, cursor);
        let m = marker_before(t, k)->0;
        lemma_marker_before_clear(t, k, m);
        lemma_token_end_at_least(t, m + 1, k);
        lemma_token_end_stops(t, m + 1);
        let e = token_end(t, m + 1);
        lemma_char_index_unique(t, m, char_index_at(t, q.start));
        lemma_char_index_unique(t, e, char_index_at(t, q.end));
    }
}

/// The character index at or before a byte offset.
fn clip_to_char_boundary(offs: &Vec<usize>, n: usize, cursor: usize) -> (k: usize)
    requires
        offs.len() == n + 1,
    ensures
        k <= n,
        offs@[k as int] <= cursor || k == 0,
        k == n || offs@[k + 1] > cursor,
{
    let mut k: usize = 0;
    while k < n && offs[k + 1] <= cursor
        invariant
            0 <= k <= n,
            offs.len() == n + 1,
            k == 0 || offs@[k as int] <= cursor,
        decreases n - k,
    {
        k += 1;
    }
    k
}

/// Looking back from `k`, the nearest marker unless white space comes first.
fn find_marker_before(t: &[char], k: usize) -> (r: Option<usize>)
    requires
        k <= t.len(),
    ensures
        r matches Some(m) ==> marker_before(t@, k as int) == Some(m as int),
        r is None ==> marker_before(t@, k as int) is None,
{
    let mut i: usize = k;
    while i > 0
        invariant
            0 <= i <= k <= t.len(),
            marker_before(t@, k as int) == marker_before(t@, i as int),
        decreases i,
    {
        let c = t[i - 1];
        if is_whitespace_char(c) {
            return None;
        }
        if c == '#' || c == '@' {
            return Some(i - 1);
        }
        i -= 1;
    }
    None
}

/// The index of the first character at or after `start` that ends a word.
fn find_token_end(t: &[char], start: usize) -> (r: usize)
    requires
        start <= t.len(),
    ensures
        r == token_end(t@, start as int),
{
    let mut j: usize = start;
    while j < t.len()
        invariant
            start <= j <= t.len(),
            token_end(t@, start as int) == token_end(t@, j as int),
        decreases t.len() - j,
    {
        let c = t[j];
        if is_whitespace_char(c) || c == '#' || c == '@' {
            return j;
        }
        j += 1;
    }
    j
}

/// Whether `c` before a marker makes it part of a longer word.
fn disallow_inline_marker_after(c: char) -> (r: bool)
    ensures
        r == blocks_inline_marker(c),
{
    is_ascii_alphanumeric_char(c) || c == '_' || c == '#' || c == '@'
}

/// The tag or person word that the cursor (a byte offset) is in, if any.
pub fn detect_active_metadata_query(text: &str, cursor: usize) -> (r: Option<ActiveMetadataQuery>)
    ensures
        optional_query_view(r) == detected_query(text@, cursor as int),
{
    let t = chars_of(text);
    let n = t.len();
    if n == 0 {
        return None;
    }
    let total = text_byte_len(text);
    let offs = prefix_byte_offsets(t.as_slice(), total);
    let k = clip_to_char_boundary(&offs, n, cursor);
    proof {
        assert(t@.take(0) =~= Seq::<char>::empty());
        assert(is_cursor_index(t@, cursor as int, k as int));
        lemma_cursor_index_unique(t@, cursor as int, k as int, cursor_char_index(t@, cursor as int));
    }
    let m = match find_marker_before(t.as_slice(), k) {
        Some(m) => m,
        None => {
            return None;
        },
    };
    proof {
        lemma_marker_before_clear(t@, k as int, m as int);
    }
    if m > 0 && disallow_inline_marker_after(t[m - 1]) {
        return None;
    }
    let kind = if t[m] == '#' {
        MetadataKind::Tag
    } else {
        MetadataKind::Person
    };
    let end = find_token_end(t.as_slice(), m + 1);
    proof {
        lemma_token_end_at_least(t@, m + 1, k as int);
    }
    let mut query: Vec<char> = Vec::new();
    let mut i: usize = m + 1;
    while i < k
        invariant
            m + 1 <= i <= k <= n,
            n == t.len(),
            query@ =~= t@.subrange(m + 1, i as int),
        decreases k - i,
    {
        query.push(t[i]);
        i += 1;
    }
    Some(
        ActiveMetadataQuery {
            kind,
            range: Range { start: offs[m], end: offs[end] },
            query: string_of(query.as_slice()),
        },
    )
}

/* ---------------------------------------------------------------------- */
/* Applying a completion                                                  */
/* ---------------------------------------------------------------------- */

/// A space is inserted before the marker unless the text before it is empty
/// or ends in white space.
pub open spec fn needs_leading_space(t: Seq<char>, start: int) -> bool {
    let ks = char_index_at(t, start);
    ks > 0 && !is_white_space(t[ks - 1])
}

/// A space is appended after the name when the word reaches the end of the text.
pub open spec fn needs_trailing_space(t: Seq<char>, end: int) -> bool {
    end == byte_len(t)
}

/// One space if `b`, else nothing.
pub open spec fn space_if(b: bool) -> Seq<char> {
    if b {
        seq![' ']
    } else {
        Seq::empty()
    }
}

/// The text with the bytes `start..end` replaced by the marker of `kind` and
/// `name`, with a space before when needed and a space after at the end of text.
pub open spec fn completed_text(
    t: Seq<char>,
    start: int,
    end: int,
    kind: MetadataKind,
    name: Seq<char>,
) -> Seq<char> {
    t.take(char_index_at(t, start)) + space_if(needs_leading_space(t, start)) + seq![
        marker_of(kind),
    ] + name + space_if(needs_trailing_space(t, end)) + t.skip(char_index_at(t, end))
}

/// The byte offset right after the inserted name (and its trailing space).
pub open spec fn completed_cursor(t: Seq<char>, start: int, end: int, name: Seq<char>) -> int {
    start + (if needs_leading_space(t, start) {
        1int
    } else {
        0
    }) + 1 + byte_len(name) + (if needs_trailing_space(t, end) {
        1int
    } else {
        0
    })
}

/// The character index at a boundary is the one whose prefix has that many
/// bytes.
proof fn lemma_char_index_at(t: Seq<char>, b: int)
    requires
        is_char_boundary_at(t, b),
    ensures
        0 <= char_index_at(t, b) <= t.len(),
        byte_len(t.take(char_index_at(t, b))) == b,
{
}

/// Completing a word keeps the text around it: the completed text is the
/// text before the word's start, then (where the text before does not end in
/// white space) one space, the marker, the name, (at the end of the text)
/// one space, and then the text from the word's end on, unchanged. The
/// cursor lands right after the inserted name and its space, that is, as
/// many bytes before the end of the new text as the kept rest is long.
pub proof fn lemma_completion_keeps_surroundings(
    t: Seq<char>,
    start: int,
    end: int,
    kind: MetadataKind,
    name: Seq<char>,
)
    requires
        is_char_boundary_at(t, start),
        is_char_boundary_at(t, end),
    ensures
        ({
            let r = completed_text(t, start, end, kind, name);
            let ks = char_index_at(t, start);
            let ke = char_index_at(t, end);
            let lead: int = if ks > 0 && !is_white_space(t[ks - 1]) { 1 } else { 0 };
            let trail: int = if end == byte_len(t) { 1 } else { 0 };
            let rest = t.len() - ke;
            &&& byte_len(t.take(ks)) == start
            &&& byte_len(t.take(ke)) == end
            &&& r.len() == ks + lead + 1 + name.len() + trail + rest
            &&& r.take(ks) == t.take(ks)
            &&& (lead == 1 ==> r[ks] == ' ')
            &&& r[ks + lead] == marker_of(kind)
            &&& r.subrange(ks + lead + 1, ks + lead + 1 + name.len()) == name
            &&& (trail == 1 ==> r[ks + lead + 1 + name.len()] == ' ')
            &&& r.skip(r.len() - rest) == t.skip(ke)
            &&& completed_cursor(t, start, end, name) == byte_len(r) - (byte_len(t) - end)
        }),
{
    let r = completed_text(t, start, end, kind, name);
    let ks = char_index_at(t, start);
    let ke = char_index_at(t, end);
    lemma_char_index_at(t, start);
    lemma_char_index_at(t, end);
    let lead_s = space_if(needs_leading_space(t, start));
    let trail_s = space_if(needs_trailing_space(t, end));
    let head = t.take(ks) + lead_s + seq![marker_of(kind)] + name + trail_s;
    assert(r == head + t.skip(ke));
    assert(t.take(ke) + t.skip(ke) =~= t);
    lemma_byte_len_add(t.take(ke), t.skip(ke));
    lemma_byte_len_add(head, t.skip(ke));
    lemma_byte_len_add(t.take(ks) + lead_s + seq![marker_of(kind)] + name, trail_s);
    lemma_byte_len_add(t.take(ks) + lead_s + seq![marker_of(kind)], name);
    lemma_byte_len_add(t.take(ks) + lead_s, seq![marker_of(kind)]);
    lemma_byte_len_add(t.take(ks), lead_s);
    lemma_byte_len_single(marker_of(kind));
    lemma_byte_len_single(' ');
    assert(byte_len(Seq::<char>::empty()) == 0);
    assert(r.take(ks) =~= t.take(ks));
    assert(r.subrange(ks + lead_s.len() + 1, ks + lead_s.len() + 1 + name.len()) =~= name);
    assert(r.skip(r.len() - (t.len() - ke)) =~= t.skip(ke));
}

/// The character index at byte offset `b`, which must be a boundary.
pub(crate) fn char_index_of_offset(offs: &Vec<usize>, Ghost(t): Ghost<Seq<char>>, b: usize) -> (k: usize)
    requires
        offs.len() == t.len() + 1,
        forall|j: int| 0 <= j <= t.len() ==> #[trigger] offs@[j] == byte_len(t.take(j)),
        is_char_boundary_at(t, b as int),
    ensures
        k as int == char_index_at(t, b as int),
        k <= t.len(),
{
    let ghost w = choose|j: int| 0 <= j <= t.len() && byte_len(t.take(j)) == b;
    let n = offs.len() - 1;
    let mut k: usize = 0;
    while k < n && offs[k] < b
        invariant
            0 <= k <= t.len(),
            n == t.len(),
            offs.len() == t.len() + 1,
            forall|j: int| 0 <= j <= t.len() ==> #[trigger] offs@[j] == byte_len(t.take(j)),
            0 <= w <= t.len(),
            byte_len(t.take(w)) == b,
            k <= w,
        decreases n - k,
    {
        proof {
            if k == w {
                assert(offs@[k as int] == b);
            }
        }
        k += 1;
    }
    proof {
        if k < w {
            lemma_byte_len_take_strict(t, k as int, w);
        }
        lemma_char_index_unique(t, k as int, char_index_at(t, b as int));
    }
    k
}

/// Replaces the word at `range` (byte offsets) with the marker of `kind`
/// followed by `name`, inserting a space before it when it would otherwise
/// touch the preceding text, and one after it at the end of the text.
/// Returns the new text and the byte offset just after the inserted name.
pub fn apply_metadata_completion(
    text: &str,
    range: Range<usize>,
    kind: MetadataKind,
    name: &str,
) -> (r: MetadataCompletionEdit)
    requires
        is_char_boundary_at(text@, range.start as int),
        is_char_boundary_at(text@, range.end as int),
        byte_len(text@) + byte_len(name@) + 3 <= usize::MAX,
    ensures
        r.text@ == completed_text(text@, range.start as int, range.end as int, kind, name@),
        r.cursor == completed_cursor(text@, range.start as int, range.end as int, name@),
{
    let t = chars_of(text);
    let total = text_byte_len(text);
    let offs = prefix_byte_offsets(t.as_slice(), total);
    let ks = char_index_of_offset(&offs, Ghost(t@), range.start);
    let ke = char_index_of_offset(&offs, Ghost(t@), range.end);
    let lead = ks > 0 && !is_whitespace_char(t[ks - 1]);
    let trail = range.end == total;
    let name_chars = chars_of(name);
    let name_len = text_byte_len(name);
    let mut out: Vec<char> = Vec::new();
    let mut i: usize = 0;
    while i < ks
        invariant
            0 <= i <= ks <= t.len(),
            out@ =~= t@.take(i as int),
        decreases ks - i,
    {
        out.push(t[i]);
        i += 1;
    }
    if lead {
        out.push(' ');
    }
    out.push(kind.marker());
    let ghost before_name = out@;
    let mut j: usize = 0;
    while j < name_chars.len()
        invariant
            0 <= j <= name_chars.len(),
            out@ =~= before_name + name_chars@.take(j as int),
        decreases name_chars.len() - j,
    {
        out.push(name_chars[j]);
        j += 1;
    }
    assert(name_chars@.take(j as int) =~= name_chars@);
    if trail {
        out.push(' ');
    }
    let ghost before_rest = out@;
    let mut k: usize = ke;
    while k < t.len()
        invariant
            ke <= k <= t.len(),
            out@ =~= before_rest + t@.subrange(ke as int, k as int),
        decreases t.len() - k,
    {
        out.push(t[k]);
        k += 1;
    }
    proof {
        lemma_byte_len_take_mono(t@, ks as int, t.len() as int);
        assert(t@.take(t.len() as int) =~= t@);
    }
    let cursor = range.start + (if lead {
        1
    } else {
        0
    }) + 1 + name_len + (if trail {
        1
    } else {
        0
    });
    MetadataCompletionEdit { text: string_of(out.as_slice()), cursor }
}

/* ---------------------------------------------------------------------- */
/* Ranking candidates                                                     */
/* ---------------------------------------------------------------------- */

/// The mathematical content of a catalog entry: its name and usage count.
pub open spec fn entry_view(e: MetadataCatalogEntry) -> (Seq<char>, usize) {
    (e.name@, e.usage_count)
}

/// The views of a sequence of entries.
pub open spec fn entries_view(s: Seq<MetadataCatalogEntry>) -> Seq<(Seq<char>, usize)> {
    s.map_values(|e: MetadataCatalogEntry| entry_view(e))
}

/// How a candidate matches a query: best is a prefix match, then a match
/// anywhere in the name, then the query's characters in order.
#[derive(Debug, Clone, Copy, PartialEq, Eq, Structural)]
pub enum MatchKind {
    Prefix,
    Contains,
    Subsequence,
}

/// The rank of a match kind; lower ranks come first.
pub open spec fn match_kind_rank(k: MatchKind) -> nat {
    match k {
        MatchKind::Prefix => 0,
        MatchKind::Contains => 1,
        MatchKind::Subsequence => 2,
    }
}

/// `q` occurs in `s` as a contiguous run.
pub open spec fn contains_run(s: Seq<char>, q: Seq<char>) -> bool {
    exists|i: int| 0 <= i && i + q.len() <= s.len() && #[trigger] s.subrange(i, i + q.len()) == q
}

/// The characters of `q` occur in `c` in order, not necessarily together.
pub open spec fn is_subsequence_of(q: Seq<char>, c: Seq<char>) -> bool
    decreases c.len(),
{
    if q.len() == 0 {
        true
    } else if c.len() == 0 {
        false
    } else if q[0] == c[0] {
        is_subsequence_of(q.drop_first(), c.drop_first())
    } else {
        is_subsequence_of(q, c.drop_first())
    }
}

/// How a (lower-cased) candidate name matches a (lower-cased) query.
pub open spec fn match_of(folded_candidate: Seq<char>, folded_query: Seq<char>) -> Option<MatchKind> {
    if folded_query.len() <= folded_candidate.len() && folded_candidate.take(
        folded_query.len() as int,
    ) == folded_query {
        Some(MatchKind::Prefix)
    } else if contains_run(folded_candidate, folded_query) {
        Some(MatchKind::Contains)
    } else if is_subsequence_of(folded_query, folded_candidate) {
        Some(MatchKind::Subsequence)
    } else {
        None
    }
}

/// The order of ranked candidates: better match first, then more uses, then
/// name in lexicographic order.
pub open spec fn rank_order() -> spec_fn((nat, (Seq<char>, usize)), (nat, (Seq<char>, usize))) -> bool {
    |a: (nat, (Seq<char>, usize)), b: (nat, (Seq<char>, usize))|
        a.0 < b.0 || (a.0 == b.0 && (a.1.1 > b.1.1 || (a.1.1 == b.1.1 && name_le(a.1.0, b.1.0))))
}

/// The order of a catalog: more uses first, then name in lexicographic order.
pub open spec fn usage_order() -> spec_fn((Seq<char>, usize), (Seq<char>, usize)) -> bool {
    |a: (Seq<char>, usize), b: (Seq<char>, usize)|
        a.1 > b.1 || (a.1 == b.1 && name_le(a.0, b.0))
}

/// The first `n` candidates that match the query, each with its rank, in
/// catalog order.
pub open spec fn ranked_prefix(
    cands: Seq<(Seq<char>, usize)>,
    folded: Seq<Seq<char>>,
    folded_query: Seq<char>,
    n: int,
) -> Seq<(nat, (Seq<char>, usize))>
    decreases n,
{
    if n <= 0 {
        Seq::empty()
    } else {
        let r = ranked_prefix(cands, folded, folded_query, n - 1);
        match match_of(folded[n - 1], folded_query) {
            Some(k) => r.push((match_kind_rank(k), cands[n - 1])),
            None => r,
        }
    }
}

/// `s` cut to at most `n` members.
pub open spec fn first_n<T>(s: Seq<T>, n: nat) -> Seq<T> {
    if s.len() <= n {
        s
    } else {
        s.take(n as int)
    }
}

/// The candidates that match `folded_query`, given every candidate's
/// lower-cased name: ordered by match kind, then usage (more first), then
/// name, at most [`MAX_VISIBLE_MATCHES`] of them.
pub open spec fn ranked_candidates(
    cands: Seq<(Seq<char>, usize)>,
    folded: Seq<Seq<char>>,
    folded_query: Seq<char>,
) -> Seq<(Seq<char>, usize)> {
    first_n(
        ranked_prefix(cands, folded, folded_query, cands.len() as int).sort_by(
            rank_order(),
        ).map_values(|p: (nat, (Seq<char>, usize))| p.1),
        MAX_VISIBLE_MATCHES as nat,
    )
}

/// The candidates offered for `query`: the first ones of the catalog when the
/// query is empty, else the ranked matches of the lower-cased query among the
/// lower-cased names.
pub open spec fn filtered_candidates(cands: Seq<(Seq<char>, usize)>, query: Seq<char>) -> Seq<
    (Seq<char>, usize),
> {
    if query.len() == 0 {
        first_n(cands, MAX_VISIBLE_MATCHES as nat)
    } else {
        ranked_candidates(
            cands,
            cands.map_values(|e: (Seq<char>, usize)| lowercase(e.0)),
            lowercase(query),
        )
    }
}

/// `q` begins `s`.
pub open spec fn begins_with(s: Seq<char>, q: Seq<char>) -> bool {
    q.len() <= s.len() && s.take(q.len() as int) == q
}

/// `x` carries the rank of how its candidate's lower-cased name matches
/// `fq`.
spec fn rank_fits(x: (nat, (Seq<char>, usize)), fq: Seq<char>) -> bool {
    match match_of(lowercase(x.1.0), fq) {
        Some(k) => x.0 == match_kind_rank(k),
        None => false,
    }
}

/// Every ranked candidate carries the rank of its match.
proof fn lemma_ranked_prefix_fits(cands: Seq<(Seq<char>, usize)>, fq: Seq<char>, n: int)
    requires
        0 <= n <= cands.len(),
    ensures
        ({
            let rp = ranked_prefix(
                cands,
                cands.map_values(|e: (Seq<char>, usize)| lowercase(e.0)),
                fq,
                n,
            );
            forall|i: int| 0 <= i < rp.len() ==> rank_fits(#[trigger] rp[i], fq)
        }),
    decreases n,
{
    if n > 0 {
        lemma_ranked_prefix_fits(cands, fq, n - 1);
        let folded = cands.map_values(|e: (Seq<char>, usize)| lowercase(e.0));
        assert(folded[n - 1] == lowercase(cands[n - 1].0));
        let r = ranked_prefix(cands, folded, fq, n - 1);
        let rn = ranked_prefix(cands, folded, fq, n);
        match match_of(folded[n - 1], fq) {
            Some(k) => {
                assert(rn == r.push((match_kind_rank(k), cands[n - 1])));
                assert forall|i: int| 0 <= i < rn.len() implies rank_fits(#[trigger] rn[i], fq) by {
                    if i < r.len() {
                        assert(rn[i] == r[i]);
                    }
                }
            },
            None => {
                assert(rn == r);
            },
        }
    }
}

/// How a ranked candidate matches, read off its rank: it begins with the
/// query exactly at rank 0, and holds it as a contiguous run exactly at rank
/// 0 or 1.
proof fn lemma_rank_reads_match(x: (nat, (Seq<char>, usize)), fq: Seq<char>)
    requires
        rank_fits(x, fq),
    ensures
        begins_with(lowercase(x.1.0), fq) <==> x.0 == 0,
        contains_run(lowercase(x.1.0), fq) <==> x.0 <= 1,
{
    let c = lowercase(x.1.0);
    if begins_with(c, fq) {
        assert(c.subrange(0, 0 + fq.len() as int) =~= fq);
    }
}

/// Among the candidates offered for a non-empty query, those whose
/// lower-cased name begins with the lower-cased query come first, then
/// those that hold it as a contiguous run, then those that hold its
/// characters only scattered, whatever their usage counts.
pub proof fn lemma_better_matches_first(cands: Seq<(Seq<char>, usize)>, query: Seq<char>)
    requires
        query.len() > 0,
    ensures
        ({
            let r = filtered_candidates(cands, query);
            let fq = lowercase(query);
            forall|i: int, j: int|
                0 <= i < j < r.len() ==> {
                    &&& (begins_with(lowercase((#[trigger] r[j]).0), fq) ==> begins_with(
                        lowercase((#[trigger] r[i]).0),
                        fq,
                    ))
                    &&& (contains_run(lowercase(r[j].0), fq) ==> contains_run(lowercase(r[i].0), fq))
                }
        }),
{
    let fq = lowercase(query);
    let folded = cands.map_values(|e: (Seq<char>, usize)| lowercase(e.0));
    let rp = ranked_prefix(cands, folded, fq, cands.len() as int);
    lemma_ranked_prefix_fits(cands, fq, cands.len() as int);
    lemma_rank_order_total();
    rp.lemma_sort_by_ensures(rank_order());
    let sorted = rp.sort_by(rank_order());
    let mapped = sorted.map_values(|p: (nat, (Seq<char>, usize))| p.1);
    let r = filtered_candidates(cands, query);
    assert(r == first_n(mapped, MAX_VISIBLE_MATCHES as nat));
    assert forall|i: int, j: int| 0 <= i < j < r.len() implies {
        &&& (begins_with(lowercase((#[trigger] r[j]).0), fq) ==> begins_with(
            lowercase((#[trigger] r[i]).0),
            fq,
        ))
        &&& (contains_run(lowercase(r[j].0), fq) ==> contains_run(lowercase(r[i].0), fq))
    } by {
        assert(r[i] == sorted[i].1);
        assert(r[j] == sorted[j].1);
        assert(sorted.contains(sorted[i]));
        assert(sorted.contains(sorted[j]));
        assert(rp.contains(sorted[i]));
        assert(rp.contains(sorted[j]));
        let a = choose|a: int| 0 <= a < rp.len() && rp[a] == sorted[i];
        let b = choose|b: int| 0 <= b < rp.len() && rp[b] == sorted[j];
        assert(rank_fits(rp[a], fq));
        assert(rank_fits(rp[b], fq));
        lemma_rank_reads_match(sorted[i], fq);
        lemma_rank_reads_match(sorted[j], fq);
        assert((rank_order())(sorted[i], sorted[j]));
    }
}

/// `rank_order` is a total order.
pub proof fn lemma_rank_order_total()
    ensures
        total_ordering(rank_order()),
{
    let le = rank_order();
    assert forall|a: (nat, (Seq<char>, usize))| #[trigger] le(a, a) by {
        lemma_name_le_reflexive(a.1.0);
    }
    assert forall|a: (nat, (Seq<char>, usize)), b: (nat, (Seq<char>, usize))| #[trigger]
        le(a, b) && #[trigger] le(b, a) implies a == b by {
        if a.0 == b.0 && a.1.1 == b.1.1 {
            lemma_name_le_antisymmetric(a.1.0, b.1.0);
        }
    }
    assert forall|
        a: (nat, (Seq<char>, usize)),
        b: (nat, (Seq<char>, usize)),
        c: (nat, (Seq<char>, usize)),
    | #[trigger] le(a, b) && #[trigger] le(b, c) implies le(a, c) by {
        if a.0 == b.0 && b.0 == c.0 && a.1.1 == b.1.1 && b.1.1 == c.1.1 {
            lemma_name_le_transitive(a.1.0, b.1.0, c.1.0);
        }
    }
    assert forall|a: (nat, (Seq<char>, usize)), b: (nat, (Seq<char>, usize))| #[trigger]
        le(a, b) || #[trigger] le(b, a) by {
        lemma_name_le_total(a.1.0, b.1.0);
    }
}

/// `usage_order` is a total order.
pub proof fn lemma_usage_order_total()
    ensures
        total_ordering(usage_order()),
{
    let le = usage_order();
    assert forall|a: (Seq<char>, usize)| #[trigger] le(a, a) by {
        lemma_name_le_reflexive(a.0);
    }
    assert forall|a: (Seq<char>, usize), b: (Seq<char>, usize)| #[trigger]
        le(a, b) && #[trigger] le(b, a) implies a == b by {
        if a.1 == b.1 {
            lemma_name_le_antisymmetric(a.0, b.0);
        }
    }
    assert forall|a: (Seq<char>, usize), b: (Seq<char>, usize), c: (Seq<char>, usize)| #[trigger]
        le(a, b) && #[trigger] le(b, c) implies le(a, c) by {
        if a.1 == b.1 && b.1 == c.1 {
            lemma_name_le_transitive(a.0, b.0, c.0);
        }
    }
    assert forall|a: (Seq<char>, usize), b: (Seq<char>, usize)| #[trigger]
        le(a, b) || #[trigger] le(b, a) by {
        lemma_name_le_total(a.0, b.0);
    }
}

/// Inserting `x` at a position where everything before is not after it and
/// everything from there on is after it keeps a sequence sorted and adds `x`
/// to its elements.
proof fn lemma_insert_sorted<T>(s: Seq<T>, p: int, x: T, le: spec_fn(T, T) -> bool)
    requires
        total_ordering(le),
        sorted_by(s, le),
        0 <= p <= s.len(),
        forall|q: int| 0 <= q < p ==> #[trigger] le(s[q], x),
        p < s.len() ==> !le(s[p], x),
    ensures
        sorted_by(s.insert(p, x), le),
        s.insert(p, x).to_multiset() =~= s.to_multiset().insert(x),
{
    let t = s.insert(p, x);
    if p < s.len() {
        assert(le(x, s[p]));
    }
    assert forall|i: int, j: int| 0 <= i < j < t.len() implies #[trigger] le(t[i], t[j]) by {
        if j < p {
            assert(le(s[i], s[j]));
        } else if j == p {
            assert(le(s[i], x));
        } else if i < p {
            assert(le(s[i], s[j - 1]));
            assert(le(s[j - 1], x) || le(x, s[j - 1]));
            if i < j - 1 {
                assert(le(s[i], s[j - 1]));
            }
        } else if i == p {
            if j - 1 > p {
                assert(le(s[p], s[j - 1]));
            }
        } else {
            assert(le(s[i - 1], s[j - 1]));
        }
    }
    assert(t.remove(p) =~= s);
    assert(t[p] == x);
    assert(t.contains(x));
}

/// The view of ranked entries.
pub open spec fn ranked_view(s: Seq<(usize, MetadataCatalogEntry)>) -> Seq<(nat, (Seq<char>, usize))> {
    s.map_values(|p: (usize, MetadataCatalogEntry)| (p.0 as nat, entry_view(p.1)))
}

/// A copy of an entry.
fn copy_entry(e: &MetadataCatalogEntry) -> (r: MetadataCatalogEntry)
    ensures
        entry_view(r) == entry_view(*e),
{
    MetadataCatalogEntry { name: e.name.clone(), usage_count: e.usage_count }
}

/// Whether `a` comes before or equals `b` among ranked candidates.
fn rank_le(a: &(usize, MetadataCatalogEntry), b: &(usize, MetadataCatalogEntry)) -> (r: bool)
    ensures
        r == (rank_order())((a.0 as nat, entry_view(a.1)), (b.0 as nat, entry_view(b.1))),
{
    if a.0 != b.0 {
        a.0 < b.0
    } else if a.1.usage_count != b.1.usage_count {
        a.1.usage_count > b.1.usage_count
    } else {
        let x = chars_of(a.1.name.as_str());
        let y = chars_of(b.1.name.as_str());
        name_le_chars(x.as_slice(), y.as_slice())
    }
}

/// Whether `a` comes before or equals `b` in a catalog.
fn usage_le(a: &MetadataCatalogEntry, b: &MetadataCatalogEntry) -> (r: bool)
    ensures
        r == (usage_order())(entry_view(*a), entry_view(*b)),
{
    if a.usage_count != b.usage_count {
        a.usage_count > b.usage_count
    } else {
        let x = chars_of(a.name.as_str());
        let y = chars_of(b.name.as_str());
        name_le_chars(x.as_slice(), y.as_slice())
    }
}

/// Inserts `item` into the ranked, sorted `sorted`.
fn insert_ranked(sorted: &mut Vec<(usize, MetadataCatalogEntry)>, item: (usize, MetadataCatalogEntry))
    requires
        sorted_by(ranked_view(old(sorted)@), rank_order()),
    ensures
        sorted_by(ranked_view(final(sorted)@), rank_order()),
        ranked_view(final(sorted)@).to_multiset() =~= ranked_view(old(sorted)@).to_multiset().insert(
            (item.0 as nat, entry_view(item.1)),
        ),
{
    let ghost sv = ranked_view(sorted@);
    let ghost xv = (item.0 as nat, entry_view(item.1));
    let mut p: usize = 0;
    while p < sorted.len() && rank_le(&sorted[p], &item)
        invariant
            0 <= p <= sorted.len(),
            sv == ranked_view(sorted@),
            xv == (item.0 as nat, entry_view(item.1)),
            forall|q: int| 0 <= q < p ==> #[trigger] (rank_order())(sv[q], xv),
        decreases sorted.len() - p,
    {
        p += 1;
    }
    proof {
        lemma_rank_order_total();
        lemma_insert_sorted(sv, p as int, xv, rank_order());
    }
    sorted.insert(p, item);
    assert(ranked_view(sorted@) =~= sv.insert(p as int, xv));
}

/// Inserts `item` into the sorted catalog `sorted`.
fn insert_by_usage(sorted: &mut Vec<MetadataCatalogEntry>, item: MetadataCatalogEntry)
    requires
        sorted_by(entries_view(old(sorted)@), usage_order()),
    ensures
        sorted_by(entries_view(final(sorted)@), usage_order()),
        entries_view(final(sorted)@).to_multiset() =~= entries_view(old(sorted)@).to_multiset().insert(
            entry_view(item),
        ),
{
    let ghost sv = entries_view(sorted@);
    let ghost xv = entry_view(item);
    let mut p: usize = 0;
    while p < sorted.len() && usage_le(&sorted[p], &item)
        invariant
            0 <= p <= sorted.len(),
            sv == entries_view(sorted@),
            xv == entry_view(item),
            forall|q: int| 0 <= q < p ==> #[trigger] (usage_order())(sv[q], xv),
        decreases sorted.len() - p,
    {
        p += 1;
    }
    proof {
        lemma_usage_order_total();
        lemma_insert_sorted(sv, p as int, xv, usage_order());
    }
    sorted.insert(p, item);
    assert(entries_view(sorted@) =~= sv.insert(p as int, xv));
}

/// Whether `q` occurs in `c` as a contiguous run.
fn contains_chars(c: &[char], q: &[char]) -> (r: bool)
    ensures
        r == contains_run(c@, q@),
{
    if q.len() > c.len() {
        return false;
    }
    let mut i: usize = 0;
    while i <= c.len() - q.len()
        invariant
            q.len() <= c.len(),
            0 <= i <= c.len() - q.len() + 1,
            forall|j: int| 0 <= j < i ==> #[trigger] c@.subrange(j, j + q.len()) != q@,
        decreases c.len() - i,
    {
        let mut k: usize = 0;
        while k < q.len() && c[i + k] == q[k]
            invariant
                0 <= k <= q.len(),
                i + q.len() <= c.len(),
                forall|x: int| 0 <= x < k ==> c@[i + x] == q@[x],
            decreases q.len() - k,
        {
            k += 1;
        }
        if k == q.len() {
            assert(c@.subrange(i as int, i + q.len()) =~= q@);
            return true;
        }
        assert(c@.subrange(i as int, i + q.len())[k as int] != q@[k as int]);
        i += 1;
    }
    proof {
        assert forall|j: int| 0 <= j && j + q.len() <= c.len() implies #[trigger] c@.subrange(
            j,
            j + q.len(),
        ) != q@ by {
            assert(j < i);
        }
    }
    false
}

/// Whether the characters of `q` occur in order in `c`.
fn is_subsequence(q: &[char], c: &[char]) -> (r: bool)
    ensures
        r == is_subsequence_of(q@, c@),
{
    let mut qi: usize = 0;
    let mut ci: usize = 0;
    assert(q@.skip(0) =~= q@);
    assert(c@.skip(0) =~= c@);
    while ci < c.len()
        invariant
            0 <= qi <= q.len(),
            0 <= ci <= c.len(),
            is_subsequence_of(q@, c@) == is_subsequence_of(q@.skip(qi as int), c@.skip(ci as int)),
        decreases c.len() - ci,
    {
        if qi == q.len() {
            return true;
        }
        proof {
            assert(q@.skip(qi as int).drop_first() =~= q@.skip(qi + 1));
            assert(c@.skip(ci as int).drop_first() =~= c@.skip(ci + 1));
        }
        if q[qi] == c[ci] {
            qi += 1;
        }
        ci += 1;
    }
    qi == q.len()
}

/// How a lower-cased candidate name matches a lower-cased query.
pub fn match_kind(folded_candidate: &str, folded_query: &str) -> (r: Option<MatchKind>)
    ensures
        r == match_of(folded_candidate@, folded_query@),
{
    let c = chars_of(folded_candidate);
    let q = chars_of(folded_query);
    let mut prefix = q.len() <= c.len();
    let mut k: usize = 0;
    while prefix && k < q.len()
        invariant
            0 <= k <= q.len(),
            prefix ==> q.len() <= c.len(),
            prefix ==> forall|x: int| 0 <= x < k ==> c@[x] == q@[x],
            !prefix ==> !(q@.len() <= c@.len() && c@.take(q@.len() as int) == q@),
        decreases q.len() - k,
    {
        if c[k] != q[k] {
            prefix = false;
            assert(c@.take(q@.len() as int)[k as int] != q@[k as int]);
        }
        k += 1;
    }
    if prefix {
        assert(c@.take(q@.len() as int) =~= q@);
        Some(MatchKind::Prefix)
    } else if contains_chars(c.as_slice(), q.as_slice()) {
        Some(MatchKind::Contains)
    } else if is_subsequence(q.as_slice(), c.as_slice()) {
        Some(MatchKind::Subsequence)
    } else {
        None
    }
}

/// The rank of a match kind.
fn rank_of(k: MatchKind) -> (r: usize)
    ensures
        r == match_kind_rank(k),
{
    match k {
        MatchKind::Prefix => 0,
        MatchKind::Contains => 1,
        MatchKind::Subsequence => 2,
    }
}

/// Ranks the candidates whose lower-cased names (`folded_names`, one per
/// candidate) match `folded_query`: better match kind first, then more uses,
/// then name; at most [`MAX_VISIBLE_MATCHES`] are returned.
pub fn rank_metadata_candidates(
    candidates: &[MetadataCatalogEntry],
    folded_names: &[String],
    folded_query: &str,
) -> (r: Vec<MetadataCatalogEntry>)
    requires
        folded_names.len() == candidates.len(),
    ensures
        entries_view(r@) == ranked_candidates(
            entries_view(candidates@),
            crate::strings::string_views(folded_names@),
            folded_query@,
        ),
{
    let ghost cands = entries_view(candidates@);
    let ghost folded = crate::strings::string_views(folded_names@);
    let mut sorted: Vec<(usize, MetadataCatalogEntry)> = Vec::new();
    let mut i: usize = 0;
    while i < candidates.len()
        invariant
            0 <= i <= candidates.len(),
            folded_names.len() == candidates.len(),
            cands == entries_view(candidates@),
            folded == crate::strings::string_views(folded_names@),
            sorted_by(ranked_view(sorted@), rank_order()),
            ranked_view(sorted@).to_multiset() =~= ranked_prefix(
                cands,
                folded,
                folded_query@,
                i as int,
            ).to_multiset(),
        decreases candidates.len() - i,
    {
        let kind = match_kind(folded_names[i].as_str(), folded_query);
        proof {
            assert(folded[i as int] == folded_names@[i as int]@);
            assert(cands[i as int] == entry_view(candidates@[i as int]));
        }
        match kind {
            Some(k) => {
                let item = (rank_of(k), copy_entry(&candidates[i]));
                insert_ranked(&mut sorted, item);
            },
            None => {},
        }
        i += 1;
    }
    let ghost matched = ranked_prefix(cands, folded, folded_query@, candidates.len() as int);
    proof {
        lemma_rank_order_total();
        matched.lemma_sort_by_ensures(rank_order());
        lemma_sorted_permutation_unique(ranked_view(sorted@), matched.sort_by(rank_order()), rank_order());
    }
    let ghost full = ranked_view(sorted@).map_values(|p: (nat, (Seq<char>, usize))| p.1);
    let mut r: Vec<MetadataCatalogEntry> = Vec::new();
    let mut k: usize = 0;
    while k < sorted.len() && k < MAX_VISIBLE_MATCHES
        invariant
            0 <= k <= sorted.len(),
            k <= MAX_VISIBLE_MATCHES,
            full == ranked_view(sorted@).map_values(|p: (nat, (Seq<char>, usize))| p.1),
            entries_view(r@) =~= full.take(k as int),
        decreases sorted.len() - k,
    {
        let e = copy_entry(&sorted[k].1);
        let ghost old_r = r@;
        r.push(e);
        proof {
            assert(entries_view(r@) =~= entries_view(old_r).push(entry_view(e)));
            assert(full[k as int] == entry_view(sorted@[k as int].1));
        }
        k += 1;
    }
    proof {
        if full.len() <= MAX_VISIBLE_MATCHES {
            assert(full.take(k as int) =~= full);
        }
    }
    r
}

/// The first candidates of the catalog, at most [`MAX_VISIBLE_MATCHES`].
fn first_candidates(candidates: &[MetadataCatalogEntry]) -> (r: Vec<MetadataCatalogEntry>)
    ensures
        entries_view(r@) == first_n(entries_view(candidates@), MAX_VISIBLE_MATCHES as nat),
{
    let ghost cands = entries_view(candidates@);
    let mut r: Vec<MetadataCatalogEntry> = Vec::new();
    let mut k: usize = 0;
    while k < candidates.len() && k < MAX_VISIBLE_MATCHES
        invariant
            0 <= k <= candidates.len(),
            k <= MAX_VISIBLE_MATCHES,
            cands == entries_view(candidates@),
            entries_view(r@) =~= cands.take(k as int),
        decreases candidates.len() - k,
    {
        let e = copy_entry(&candidates[k]);
        let ghost old_r = r@;
        r.push(e);
        proof {
            assert(entries_view(r@) =~= entries_view(old_r).push(entry_view(e)));
        }
        k += 1;
    }
    proof {
        if cands.len() <= MAX_VISIBLE_MATCHES {
            assert(cands.take(k as int) =~= cands);
        }
    }
    r
}

/// The candidates to offer for `query`: the first catalog entries for an
/// empty query, else the entries whose lower-cased name matches the
/// lower-cased query, best first (see [`rank_metadata_candidates`]).
pub fn filter_metadata_candidates(candidates: &[MetadataCatalogEntry], query: &str) -> (r: Vec<
    MetadataCatalogEntry,
>)
    ensures
        entries_view(r@) == filtered_candidates(entries_view(candidates@), query@),
{
    if text_byte_len(query) == 0 {
        proof {
            crate::unicode::lemma_byte_len_empty(query@);
        }
        return first_candidates(candidates);
    }
    proof {
        crate::unicode::lemma_byte_len_empty(query@);
    }
    let folded_query = to_lowercase_text(query);
    let mut folded_names: Vec<String> = Vec::new();
    let mut i: usize = 0;
    while i < candidates.len()
        invariant
            0 <= i <= candidates.len(),
            folded_names.len() == i,
            forall|j: int| 0 <= j < i ==> #[trigger] folded_names@[j]@ == lowercase(candidates@[j].name@),
        decreases candidates.len() - i,
    {
        let f = to_lowercase_text(candidates[i].name.as_str());
        folded_names.push(f);
        i += 1;
    }
    proof {
        let cands = entries_view(candidates@);
        assert(crate::strings::string_views(folded_names@) =~= cands.map_values(
            |e: (Seq<char>, usize)| lowercase(e.0),
        ));
    }
    rank_metadata_candidates(candidates, folded_names.as_slice(), folded_query.as_str())
}

/* ---------------------------------------------------------------------- */
/* The catalog                                                            */
/* ---------------------------------------------------------------------- */

/// The known tags and people.
#[derive(Debug, PartialEq, Eq)]
pub struct MetadataCatalog {
    pub tags: Vec<MetadataCatalogEntry>,
    pub persons: Vec<MetadataCatalogEntry>,
}

impl Default for MetadataCatalog {
    fn default() -> (r: Self)
        ensures
            r.tags@.len() == 0,
            r.persons@.len() == 0,
    {
        MetadataCatalog { tags: Vec::new(), persons: Vec::new() }
    }
}

/// The index of the first entry named `name`.
pub open spec fn position_of_name(es: Seq<(Seq<char>, usize)>, name: Seq<char>) -> Option<int>
    decreases es.len(),
{
    if es.len() == 0 {
        None
    } else if es[0].0 == name {
        Some(0)
    } else {
        match position_of_name(es.drop_first(), name) {
            Some(i) => Some(i + 1),
            None => None,
        }
    }
}

/// `es` after one more use of `name`: the first entry with that name counts
/// one more use, or a new entry with one use is added at the end.
pub open spec fn bumped(es: Seq<(Seq<char>, usize)>, name: Seq<char>) -> Seq<(Seq<char>, usize)> {
    match position_of_name(es, name) {
        Some(i) => es.update(i, (name, (es[i].1 + 1) as usize)),
        None => es.push((name, 1usize)),
    }
}

/// `es` after one more use of `name`, re-sorted by usage and name.
pub open spec fn upserted(es: Seq<(Seq<char>, usize)>, name: Seq<char>) -> Seq<(Seq<char>, usize)> {
    bumped(es, name).sort_by(usage_order())
}

/// `es` after one more use of each of `names`, in order.
pub open spec fn upserted_all(es: Seq<(Seq<char>, usize)>, names: Seq<Seq<char>>) -> Seq<
    (Seq<char>, usize),
>
    decreases names.len(),
{
    if names.len() == 0 {
        es
    } else {
        upserted(upserted_all(es, names.drop_last()), names.last())
    }
}

/// `position_of_name` finds the first entry with the name.
proof fn lemma_position_of_name(es: Seq<(Seq<char>, usize)>, name: Seq<char>, i: int)
    requires
        0 <= i <= es.len(),
        forall|j: int| 0 <= j < i ==> (#[trigger] es[j]).0 != name,
        i < es.len() ==> es[i].0 == name,
    ensures
        position_of_name(es, name) == (if i < es.len() {
            Some(i)
        } else {
            None::<int>
        }),
    decreases i,
{
    if i > 0 {
        assert(es[0].0 != name);
        let t = es.drop_first();
        assert forall|j: int| 0 <= j < i - 1 implies (#[trigger] t[j]).0 != name by {
            assert(t[j] == es[j + 1]);
        }
        lemma_position_of_name(t, name, i - 1);
    }
}

/// The index of the first entry of `entries` named `name`.
fn find_entry(entries: &Vec<MetadataCatalogEntry>, name: &str) -> (r: Option<usize>)
    ensures
        r matches Some(i) ==> i < entries@.len(),
        match r {
            Some(i) => position_of_name(entries_view(entries@), name@) == Some(i as int),
            None => position_of_name(entries_view(entries@), name@) is None,
        },
{
    let ghost es = entries_view(entries@);
    let mut i: usize = 0;
    while i < entries.len()
        invariant
            0 <= i <= entries.len(),
            es == entries_view(entries@),
            forall|j: int| 0 <= j < i ==> (#[trigger] es[j]).0 != name@,
        decreases entries.len() - i,
    {
        if text_equals(entries[i].name.as_str(), name) {
            proof {
                lemma_position_of_name(es, name@, i as int);
            }
            return Some(i);
        }
        i += 1;
    }
    proof {
        lemma_position_of_name(es, name@, i as int);
    }
    None
}

/// Records one more use of `name` in `entries` and re-sorts them by usage
/// (more first) and then by name.
fn upsert_entry(entries: &mut Vec<MetadataCatalogEntry>, name: &str)
    requires
        forall|i: int| 0 <= i < old(entries)@.len() ==> #[trigger] old(entries)@[i].usage_count
            < usize::MAX,
    ensures
        entries_view(final(entries)@) == upserted(entries_view(old(entries)@), name@),
{
    let ghost es = entries_view(entries@);
    match find_entry(entries, name) {
        Some(i) => {
            let mut e = copy_entry(&entries[i]);
            e.usage_count = e.usage_count + 1;
            entries.set(i, e);
            proof {
                assert(entries_view(entries@) =~= es.update(
                    i as int,
                    (es[i as int].0, (es[i as int].1 + 1) as usize),
                ));
                lemma_position_bound(es, name@);
                assert(es[i as int].0 == name@);
            }
        },
        None => {
            let e = MetadataCatalogEntry { name: name.to_owned(), usage_count: 1 };
            entries.push(e);
            assert(entries_view(entries@) =~= es.push((name@, 1usize)));
        },
    }
    let ghost b = entries_view(entries@);
    assert(b == bumped(es, name@));
    let mut sorted: Vec<MetadataCatalogEntry> = Vec::new();
    let mut k: usize = 0;
    while k < entries.len()
        invariant
            0 <= k <= entries.len(),
            b == entries_view(entries@),
            sorted_by(entries_view(sorted@), usage_order()),
            entries_view(sorted@).to_multiset() =~= b.take(k as int).to_multiset(),
        decreases entries.len() - k,
    {
        let e = copy_entry(&entries[k]);
        insert_by_usage(&mut sorted, e);
        proof {
            assert(b.take(k + 1) =~= b.take(k as int).push(b[k as int]));
        }
        k += 1;
    }
    proof {
        assert(b.take(k as int) =~= b);
        lemma_usage_order_total();
        b.lemma_sort_by_ensures(usage_order());
        lemma_sorted_permutation_unique(entries_view(sorted@), b.sort_by(usage_order()), usage_order());
    }
    *entries = sorted;
}

/* ---------------------------------------------------------------------- */
/* The completion menu                                                    */
/* ---------------------------------------------------------------------- */

/// What a key press did to the completion menu.
#[derive(Debug, Clone, PartialEq, Eq)]
pub enum MetadataAutocompleteAction {
    Ignored,
    Moved,
    Dismissed,
    Applied(MetadataCompletionEdit),
}

/// The state of the completion menu of one text input: the catalog, the
/// word being completed, the candidates on offer and the highlighted one.
#[derive(Debug)]
pub struct MetadataAutocompleteState {
    catalog: MetadataCatalog,
    active_query: Option<ActiveMetadataQuery>,
    matches: Vec<MetadataCatalogEntry>,
    selected_index: usize,
}

/// The mathematical content of a [`MetadataAutocompleteState`].
pub struct AutocompleteView {
    pub tags: Seq<(Seq<char>, usize)>,
    pub persons: Seq<(Seq<char>, usize)>,
    pub query: Option<QueryView>,
    pub matches: Seq<(Seq<char>, usize)>,
    pub selected_index: int,
}

impl View for MetadataAutocompleteState {
    type V = AutocompleteView;

    closed spec fn view(&self) -> AutocompleteView {
        AutocompleteView {
            tags: entries_view(self.catalog.tags@),
            persons: entries_view(self.catalog.persons@),
            query: optional_query_view(self.active_query),
            matches: entries_view(self.matches@),
            selected_index: self.selected_index as int,
        }
    }
}

/// A menu is open exactly when there is a word and candidates for it, at
/// most [`MAX_VISIBLE_MATCHES`] of them, and the highlighted candidate is one
/// of them.
pub open spec fn autocomplete_wf(v: AutocompleteView) -> bool {
    &&& v.matches.len() <= MAX_VISIBLE_MATCHES
    &&& v.query is None ==> v.matches.len() == 0
    &&& v.matches.len() == 0 ==> v.selected_index == 0
    &&& v.matches.len() > 0 ==> 0 <= v.selected_index < v.matches.len()
}

/// `v` with the menu closed and the catalog kept.
pub open spec fn cleared(v: AutocompleteView) -> AutocompleteView {
    AutocompleteView {
        tags: v.tags,
        persons: v.persons,
        query: None,
        matches: Seq::empty(),
        selected_index: 0,
    }
}

/// The catalog for `kind`.
pub open spec fn catalog_of(v: AutocompleteView, kind: MetadataKind) -> Seq<(Seq<char>, usize)> {
    match kind {
        MetadataKind::Tag => v.tags,
        MetadataKind::Person => v.persons,
    }
}

/// The highlighted candidate, if any.
pub open spec fn selected_of(v: AutocompleteView) -> Option<(Seq<char>, usize)> {
    if 0 <= v.selected_index < v.matches.len() {
        Some(v.matches[v.selected_index])
    } else {
        None
    }
}

/// The menu is showing.
pub open spec fn is_open_view(v: AutocompleteView) -> bool {
    v.query is Some && v.matches.len() > 0
}

/// The menu after the text or cursor changed: closed when the cursor is not
/// in a tag or person word or nothing matches; otherwise showing the
/// matching candidates, keeping the previously highlighted name highlighted
/// when it is still among them, else highlighting the first.
pub open spec fn synced(v: AutocompleteView, t: Seq<char>, cursor: int) -> AutocompleteView {
    match detected_query(t, cursor) {
        None => cleared(v),
        Some(q) => {
            let ms = filtered_candidates(catalog_of(v, q.kind), q.query);
            if ms.len() == 0 {
                cleared(v)
            } else {
                let next = match selected_of(v) {
                    Some(e) => match position_of_name(ms, e.0) {
                        Some(p) => p,
                        None => 0,
                    },
                    None => 0,
                };
                AutocompleteView {
                    tags: v.tags,
                    persons: v.persons,
                    query: Some(q),
                    matches: ms,
                    selected_index: next,
                }
            }
        },
    }
}

/// `t` is a text that the menu's word can be completed in: the word's range
/// lies on character boundaries of `t`, and no completion would outgrow
/// `usize`.
pub open spec fn completion_fits(v: AutocompleteView, t: Seq<char>) -> bool {
    match v.query {
        Some(q) => {
            &&& is_char_boundary_at(t, q.start)
            &&& is_char_boundary_at(t, q.end)
            &&& forall|i: int|
                0 <= i < v.matches.len() ==> byte_len(t) + byte_len(#[trigger] v.matches[i].0) + 3
                    <= usize::MAX
        },
        None => true,
    }
}

/// The edit that completing the menu's word in `t` with `name` makes.
pub open spec fn is_completion_edit(e: MetadataCompletionEdit, t: Seq<char>, q: QueryView, name: Seq<
    char,
>) -> bool {
    &&& e.text@ == completed_text(t, q.start, q.end, q.kind, name)
    &&& e.cursor == completed_cursor(t, q.start, q.end, name)
}

/// The word and the name that completing with the candidate at `index`
/// uses, if there is a word and such a candidate.
pub open spec fn completion_at(v: AutocompleteView, index: int) -> Option<(QueryView, Seq<char>)> {
    match v.query {
        Some(q) => if 0 <= index < v.matches.len() {
            Some((q, v.matches[index].0))
        } else {
            None
        },
        None => None,
    }
}

/// The word and the name that completing with the highlighted candidate
/// uses, if there is a word and a highlighted candidate.
pub open spec fn selected_completion(v: AutocompleteView) -> Option<(QueryView, Seq<char>)> {
    match (v.query, selected_of(v)) {
        (Some(q), Some(e)) => Some((q, e.0)),
        _ => None,
    }
}

/// A position found by name lies in the list and holds that name.
proof fn lemma_position_bound(es: Seq<(Seq<char>, usize)>, name: Seq<char>)
    ensures
        position_of_name(es, name) matches Some(p) ==> 0 <= p < es.len() && es[p].0 == name,
    decreases es.len(),
{
    if es.len() > 0 && es[0].0 != name {
        lemma_position_bound(es.drop_first(), name);
    }
}

impl Default for MetadataAutocompleteState {
    fn default() -> (r: Self)
        ensures
            r@.tags.len() == 0,
            r@.persons.len() == 0,
            r@ == cleared(r@),
            autocomplete_wf(r@),
    {
        let r = MetadataAutocompleteState {
            catalog: MetadataCatalog::default(),
            active_query: None,
            matches: Vec::new(),
            selected_index: 0,
        };
        assert(entries_view(r.matches@) =~= Seq::<(Seq<char>, usize)>::empty());
        r
    }
}

impl MetadataAutocompleteState {
    /// Replaces the catalog; the menu itself is unchanged.
    pub fn set_catalog(&mut self, catalog: MetadataCatalog)
        ensures
            final(self)@.tags == entries_view(catalog.tags@),
            final(self)@.persons == entries_view(catalog.persons@),
            final(self)@.query == old(self)@.query,
            final(self)@.matches == old(self)@.matches,
            final(self)@.selected_index == old(self)@.selected_index,
    {
        self.catalog = catalog;
    }

    /// Updates the menu for the text and cursor (a byte offset) of the input.
    pub fn sync(&mut self, text: &str, cursor: usize)
        requires
            autocomplete_wf(old(self)@),
        ensures
            final(self)@ == synced(old(self)@, text@, cursor as int),
            autocomplete_wf(final(self)@),
    {
        let query = match detect_active_metadata_query(text, cursor) {
            Some(q) => q,
            None => {
                self.clear();
                return;
            },
        };
        let matches = filter_metadata_candidates(self.catalog_for(query.kind), query.query.as_str());
        if matches.len() == 0 {
            self.clear();
            return;
        }
        let ghost ms = entries_view(matches@);
        let next_selected: usize = match self.selected_entry() {
            Some(selected) => match find_entry(&matches, selected.name.as_str()) {
                Some(p) => p,
                None => 0,
            },
            None => 0,
        };
        proof {
            match selected_of(self@) {
                Some(e) => lemma_position_bound(ms, e.0),
                None => {},
            }
        }
        let ghost v = self@;
        self.active_query = Some(query);
        self.matches = matches;
        self.selected_index = next_selected;
        assert(self@.tags == v.tags);
    }

    /// Closes the menu.
    pub fn clear(&mut self)
        ensures
            final(self)@ == cleared(old(self)@),
            autocomplete_wf(final(self)@),
    {
        self.active_query = None;
        self.matches = Vec::new();
        self.selected_index = 0;
        assert(entries_view(self.matches@) =~= Seq::<(Seq<char>, usize)>::empty());
    }

    /// Whether the menu is showing.
    pub fn is_open(&self) -> (r: bool)
        ensures
            r == is_open_view(self@),
    {
        self.active_query.is_some() && self.matches.len() > 0
    }

    /// How many candidates the menu shows at once.
    pub fn visible_match_count(&self) -> (r: usize)
        ensures
            r == (if self@.matches.len() < MAX_VISIBLE_MATCHES {
                self@.matches.len() as int
            } else {
                MAX_VISIBLE_MATCHES as int
            }),
            autocomplete_wf(self@) ==> r == self@.matches.len(),
    {
        if self.matches.len() < MAX_VISIBLE_MATCHES {
            self.matches.len()
        } else {
            MAX_VISIBLE_MATCHES
        }
    }

    /// The candidates on offer.
    pub fn matches(&self) -> (r: &[MetadataCatalogEntry])
        ensures
            entries_view(r@) == self@.matches,
    {
        self.matches.as_slice()
    }

    /// The index of the highlighted candidate.
    pub fn selected_index(&self) -> (r: usize)
        ensures
            r == self@.selected_index,
    {
        self.selected_index
    }

    /// The highlighted candidate, if any.
    pub fn selected_entry(&self) -> (r: Option<&MetadataCatalogEntry>)
        ensures
            match r {
                Some(e) => selected_of(self@) == Some(entry_view(*e)),
                None => selected_of(self@) is None,
            },
    {
        if self.selected_index < self.matches.len() {
            Some(&self.matches[self.selected_index])
        } else {
            None
        }
    }

    /// Responds to a key press while typing: `up` and `down` move the
    /// highlight with wrap-around, `tab` completes with the highlighted
    /// candidate, `escape` closes the menu; anything else, or any key while
    /// the menu is closed, is ignored.
    pub fn handle_key(&mut self, key: &str, text: &str) -> (r: MetadataAutocompleteAction)
        requires
            autocomplete_wf(old(self)@),
            key@ == "tab"@ ==> completion_fits(old(self)@, text@),
        ensures
            autocomplete_wf(final(self)@),
            ({
                let v = old(self)@;
                let len = v.matches.len() as int;
                if !is_open_view(v) {
                    r is Ignored && final(self)@ == v
                } else if key@ == "up"@ {
                    r is Moved && final(self)@ == AutocompleteView {
                        selected_index: (v.selected_index + len - 1) % len,
                        ..v
                    }
                } else if key@ == "down"@ {
                    r is Moved && final(self)@ == AutocompleteView {
                        selected_index: (v.selected_index + 1) % len,
                        ..v
                    }
                } else if key@ == "tab"@ {
                    &&& r matches MetadataAutocompleteAction::Applied(e)
                    &&& is_completion_edit(e, text@, v.query->0, v.matches[v.selected_index].0)
                    &&& final(self)@ == cleared(v)
                } else if key@ == "escape"@ {
                    r is Dismissed && final(self)@ == cleared(v)
                } else {
                    r is Ignored && final(self)@ == v
                }
            }),
    {
        if !self.is_open() {
            return MetadataAutocompleteAction::Ignored;
        }
        if text_equals(key, "up") {
            let len = self.matches.len();
            self.selected_index = if self.selected_index == 0 {
                len - 1
            } else {
                self.selected_index - 1
            };
            proof {
                let sel = old(self)@.selected_index;
                if sel == 0 {
                    assert((sel + len - 1) % (len as int) == len - 1) by (nonlinear_arith)
                        requires
                            sel == 0,
                            len >= 1,
                    ;
                } else {
                    assert((sel + len - 1) % (len as int) == sel - 1) by (nonlinear_arith)
                        requires
                            1 <= sel < len,
                    ;
                }
            }
            MetadataAutocompleteAction::Moved
        } else if text_equals(key, "down") {
            let len = self.matches.len();
            self.selected_index = (self.selected_index + 1) % len;
            MetadataAutocompleteAction::Moved
        } else if text_equals(key, "tab") {
            match self.apply_selected(text) {
                Some(edit) => MetadataAutocompleteAction::Applied(edit),
                None => MetadataAutocompleteAction::Ignored,
            }
        } else if text_equals(key, "escape") {
            self.clear();
            MetadataAutocompleteAction::Dismissed
        } else {
            MetadataAutocompleteAction::Ignored
        }
    }

    /// Completes the word with the highlighted candidate and closes the menu;
    /// `None`, with nothing changed, when nothing is highlighted.
    pub fn apply_selected(&mut self, text: &str) -> (r: Option<MetadataCompletionEdit>)
        requires
            autocomplete_wf(old(self)@),
            completion_fits(old(self)@, text@),
        ensures
            autocomplete_wf(final(self)@),
            match selected_completion(old(self)@) {
                Some((q, name)) => {
                    &&& r matches Some(edit)
                    &&& is_completion_edit(edit, text@, q, name)
                    &&& final(self)@ == cleared(old(self)@)
                },
                None => r is None && final(self)@ == old(self)@,
            },
    {
        if self.selected_index >= self.matches.len() {
            return None;
        }
        let name = self.matches[self.selected_index].name.clone();
        assert(self@.matches[self.selected_index as int].0 == name@);
        let edit = match self.apply_candidate(text, name.as_str()) {
            Some(edit) => edit,
            None => {
                return None;
            },
        };
        self.clear();
        Some(edit)
    }

    /// Completes the word with the candidate at `index` and closes the menu;
    /// `None`, with nothing changed, when there is no such candidate.
    pub fn apply_index(&mut self, text: &str, index: usize) -> (r: Option<MetadataCompletionEdit>)
        requires
            autocomplete_wf(old(self)@),
            completion_fits(old(self)@, text@),
        ensures
            autocomplete_wf(final(self)@),
            match completion_at(old(self)@, index as int) {
                Some((q, name)) => {
                    &&& r matches Some(edit)
                    &&& is_completion_edit(edit, text@, q, name)
                    &&& final(self)@ == cleared(old(self)@)
                },
                None => r is None && final(self)@ == old(self)@,
            },
    {
        if index >= self.matches.len() {
            return None;
        }
        let name = self.matches[index].name.clone();
        assert(self@.matches[index as int].0 == name@);
        let edit = match self.apply_candidate(text, name.as_str()) {
            Some(edit) => edit,
            None => {
                return None;
            },
        };
        self.clear();
        Some(edit)
    }

    /// Records one more use of each tag and each person in the catalog, which
    /// stays sorted by usage (more first) and then by name.
    pub fn upsert_entries(&mut self, tags: &[String], persons: &[String])
        requires
            forall|i: int|
                0 <= i < old(self)@.tags.len() ==> #[trigger] old(self)@.tags[i].1 + tags@.len()
                    <= usize::MAX,
            forall|i: int|
                0 <= i < old(self)@.persons.len() ==> #[trigger] old(self)@.persons[i].1
                    + persons@.len() <= usize::MAX,
        ensures
            final(self)@.tags == upserted_all(old(self)@.tags, crate::strings::string_views(tags@)),
            final(self)@.persons == upserted_all(
                old(self)@.persons,
                crate::strings::string_views(persons@),
            ),
            final(self)@.query == old(self)@.query,
            final(self)@.matches == old(self)@.matches,
            final(self)@.selected_index == old(self)@.selected_index,
    {
        proof {
            assert forall|i: int| 0 <= i < self.catalog.tags@.len() implies #[trigger]
                self.catalog.tags@[i].usage_count + tags@.len() <= usize::MAX by {
                assert(old(self)@.tags[i].1 + tags@.len() <= usize::MAX);
                assert(old(self)@.tags[i] == entry_view(self.catalog.tags@[i]));
            }
            assert forall|i: int| 0 <= i < self.catalog.persons@.len() implies #[trigger]
                self.catalog.persons@[i].usage_count + persons@.len() <= usize::MAX by {
                assert(old(self)@.persons[i].1 + persons@.len() <= usize::MAX);
                assert(old(self)@.persons[i] == entry_view(self.catalog.persons@[i]));
            }
        }
        upsert_all(&mut self.catalog.tags, tags);
        upsert_all(&mut self.catalog.persons, persons);
    }

    /// The completion of the menu's word with `name`, if there is a word.
    fn apply_candidate(&self, text: &str, name: &str) -> (r: Option<MetadataCompletionEdit>)
        requires
            completion_fits(self@, text@),
            self@.query is Some ==> byte_len(text@) + byte_len(name@) + 3 <= usize::MAX,
        ensures
            match self@.query {
                Some(q) => r matches Some(e) && is_completion_edit(e, text@, q, name@),
                None => r is None,
            },
    {
        match &self.active_query {
            Some(query) => Some(
                apply_metadata_completion(
                    text,
                    Range { start: query.range.start, end: query.range.end },
                    query.kind,
                    name,
                ),
            ),
            None => None,
        }
    }

    /// The catalog for `kind`.
    fn catalog_for(&self, kind: MetadataKind) -> (r: &[MetadataCatalogEntry])
        ensures
            entries_view(r@) == catalog_of(self@, kind),
    {
        match kind {
            MetadataKind::Tag => self.catalog.tags.as_slice(),
            MetadataKind::Person => self.catalog.persons.as_slice(),
        }
    }
}

/// Records one more use of each of `names` in `entries`, in order.
fn upsert_all(entries: &mut Vec<MetadataCatalogEntry>, names: &[String])
    requires
        forall|i: int|
            0 <= i < old(entries)@.len() ==> #[trigger] old(entries)@[i].usage_count + names@.len()
                <= usize::MAX,
    ensures
        entries_view(final(entries)@) == upserted_all(
            entries_view(old(entries)@),
            crate::strings::string_views(names@),
        ),
{
    let ghost start = entries_view(entries@);
    let ghost ns = crate::strings::string_views(names@);
    let mut i: usize = 0;
    while i < names.len()
        invariant
            0 <= i <= names.len(),
            ns == crate::strings::string_views(names@),
            entries_view(entries@) == upserted_all(start, ns.take(i as int)),
            forall|j: int|
                0 <= j < entries@.len() ==> #[trigger] entries@[j].usage_count + (names@.len() - i)
                    <= usize::MAX,
        decreases names.len() - i,
    {
        let ghost before = entries_view(entries@);
        proof {
            assert forall|j: int| 0 <= j < before.len() implies #[trigger] before[j].1 + (
            names@.len() - i) <= usize::MAX by {
                assert(before[j] == entry_view(entries@[j]));
            }
        }
        upsert_entry(entries, names[i].as_str());
        proof {
            assert(ns.take(i + 1).drop_last() =~= ns.take(i as int));
            assert(ns[i as int] == names@[i as int]@);
            lemma_upsert_counts(before, names@[i as int]@, (names@.len() - i) as int);
            let after = upserted(before, names@[i as int]@);
            assert(entries_view(entries@) == after);
            assert forall|j: int| 0 <= j < entries@.len() implies #[trigger] entries@[j].usage_count
                + (names@.len() - (i + 1)) <= usize::MAX by {
                assert(entries_view(entries@)[j] == entry_view(entries@[j]));
                assert(after[j].1 + ((names@.len() - i) - 1) <= usize::MAX);
            }
        }
        i += 1;
    }
    assert(ns.take(names.len() as int) =~= ns);
}

/// One more use keeps every count within `bound - 1` of the limit when each
/// was within `bound` before.
proof fn lemma_upsert_counts(es: Seq<(Seq<char>, usize)>, name: Seq<char>, bound: int)
    requires
        1 <= bound <= usize::MAX,
        forall|j: int| 0 <= j < es.len() ==> #[trigger] es[j].1 + bound <= usize::MAX,
    ensures
        forall|j: int|
            0 <= j < upserted(es, name).len() ==> #[trigger] upserted(es, name)[j].1 + (bound - 1)
                <= usize::MAX,
{
    let b = bumped(es, name);
    lemma_position_bound(es, name);
    assert forall|j: int| 0 <= j < b.len() implies #[trigger] b[j].1 + (bound - 1) <= usize::MAX by {
        match position_of_name(es, name) {
            Some(p) => {
                if j != p {
                    assert(b[j] == es[j]);
                } else {
                    assert(es[p].1 + bound <= usize::MAX);
                    assert(b[j].1 == es[p].1 + 1);
                }
            },
            None => {
                if j < es.len() {
                    assert(b[j] == es[j]);
                }
            },
        }
    }
    lemma_usage_order_total();
    b.lemma_sort_by_ensures(usage_order());
    let s = b.sort_by(usage_order());
    assert forall|j: int| 0 <= j < s.len() implies #[trigger] s[j].1 + (bound - 1) <= usize::MAX by {
        assert(s.contains(s[j]));
        assert(s.to_multiset().count(s[j]) > 0);
        assert(b.to_multiset().count(s[j]) > 0);
        assert(b.contains(s[j]));
        let k = choose|k: int| 0 <= k < b.len() && b[k] == s[j];
        assert(b[k].1 + (bound - 1) <= usize::MAX);
    }
}

/// With the menu open, moving the highlight up and then down, or down and
/// then up, comes back to the same candidate.
pub proof fn lemma_up_down_round_trip(v: AutocompleteView)
    requires
        autocomplete_wf(v),
        is_open_view(v),
    ensures
        ((v.selected_index + v.matches.len() - 1) % (v.matches.len() as int) + 1) % (
        v.matches.len() as int) == v.selected_index,
        ((v.selected_index + 1) % (v.matches.len() as int) + v.matches.len() - 1) % (
        v.matches.len() as int) == v.selected_index,
{
    let len = v.matches.len() as int;
    let s = v.selected_index;
    if s == 0 {
        assert((s + len - 1) % len == len - 1) by (nonlinear_arith)
            requires
                s == 0,
                len > 0,
        ;
    } else {
        assert((s + len - 1) % len == s - 1) by (nonlinear_arith)
            requires
                0 < s < len,
        ;
    }
    if s == len - 1 {
        assert((s + 1) % len == 0) by (nonlinear_arith)
            requires
                s == len - 1,
                len > 0,
        ;
        assert((len - 1) % len == s) by (nonlinear_arith)
            requires
                s == len - 1,
                len > 0,
        ;
    } else {
        assert((s + 1) % len == s + 1) by (nonlinear_arith)
            requires
                0 <= s < len - 1,
        ;
        assert((s + len) % len == s) by (nonlinear_arith)
            requires
                0 <= s < len,
        ;
    }
    assert(((s + len - 1) % len + 1) % len == s) by (nonlinear_arith)
        requires
            0 <= s < len,
            s == 0 ==> (s + len - 1) % len == len - 1,
            s > 0 ==> (s + len - 1) % len == s - 1,
    ;
}

/// A name is found exactly when some entry has it, and then at its first
/// entry.
proof fn lemma_position_first(es: Seq<(Seq<char>, usize)>, name: Seq<char>)
    ensures
        position_of_name(es, name) is Some <==> exists|i: int| 0 <= i < es.len() && #[trigger] es[i].0 == name,
        position_of_name(es, name) matches Some(p) ==> 0 <= p < es.len() && es[p].0 == name && forall|
            j: int,
        | 0 <= j < p ==> #[trigger] es[j].0 != name,
    decreases es.len(),
{
    if es.len() > 0 && es[0].0 != name {
        let rest = es.drop_first();
        lemma_position_first(rest, name);
        if exists|i: int| 0 <= i < es.len() && #[trigger] es[i].0 == name {
            let i = choose|i: int| 0 <= i < es.len() && #[trigger] es[i].0 == name;
            assert(rest[i - 1].0 == name);
        }
        if exists|i: int| 0 <= i < rest.len() && #[trigger] rest[i].0 == name {
            let i = choose|i: int| 0 <= i < rest.len() && #[trigger] rest[i].0 == name;
            assert(es[i + 1].0 == name);
        }
        if let Some(p) = position_of_name(rest, name) {
            assert forall|j: int| 0 <= j < p + 1 implies #[trigger] es[j].0 != name by {
                if j > 0 {
                    assert(es[j] == rest[j - 1]);
                }
            }
        }
    }
}

/// Keeping the menu in step with the text keeps the highlighted name: when
/// the menu stays open and the name highlighted before is among the new
/// candidates, the first candidate with that name is highlighted; otherwise
/// the first candidate is. An open menu always highlights one of its
/// candidates.
pub proof fn lemma_sync_keeps_highlight(v: AutocompleteView, t: Seq<char>, cursor: int)
    requires
        autocomplete_wf(v),
    ensures
        ({
            let w = synced(v, t, cursor);
            is_open_view(w) ==> {
                &&& 0 <= w.selected_index < w.matches.len()
                &&& match selected_of(v) {
                    Some(e) => if exists|i: int| 0 <= i < w.matches.len() && #[trigger] w.matches[i].0 == e.0 {
                        &&& w.matches[w.selected_index].0 == e.0
                        &&& forall|j: int| 0 <= j < w.selected_index ==> #[trigger] w.matches[j].0 != e.0
                    } else {
                        w.selected_index == 0
                    },
                    None => w.selected_index == 0,
                }
            }
        }),
{
    let w = synced(v, t, cursor);
    if is_open_view(w) {
        if let Some(e) = selected_of(v) {
            lemma_position_first(w.matches, e.0);
        }
    }
}

/// Completing with the candidate at the highlighted index is completing with
/// the highlighted candidate; in a well-formed menu, a candidate at `index`
/// exists exactly when `index` is below the number of candidates.
pub proof fn lemma_apply_index_is_apply_selected(v: AutocompleteView, index: int)
    requires
        autocomplete_wf(v),
        0 <= index,
    ensures
        completion_at(v, v.selected_index) == selected_completion(v),
        completion_at(v, index) is None <==> index >= v.matches.len(),
{
}

/// After one more use of a name, a catalog is in usage order and holds the
/// same entries as with the count bumped in place: the bumped name's count
/// grows by one, or it enters with a count of one.
pub proof fn lemma_upsert_orders_by_usage(es: Seq<(Seq<char>, usize)>, name: Seq<char>)
    ensures
        sorted_by(upserted(es, name), usage_order()),
        upserted(es, name).to_multiset() == bumped(es, name).to_multiset(),
{
    lemma_usage_order_total();
    bumped(es, name).lemma_sort_by_ensures(usage_order());
}

} // verus!
