//! Where the words of a search query occur in a text: the byte ranges to
//! highlight, merged where they touch or overlap.
use vstd::prelude::*;
use crate::search::SearchFilters;
use crate::metadata_autocomplete::{char_index_at, char_index_of_offset, is_char_boundary_at};
use crate::models::Record;
use crate::strings::{
    chars_equal, chars_of, join, join_chars, lowercase, split_chars, split_pieces,
    string_of, string_views, strings_of, to_lowercase_text, trim, trim_chars, words, words_of,
    Separator,
};
use crate::unicode::{
    byte_len, lemma_byte_len_add, lemma_byte_len_take_le, prefix_byte_offsets, text_byte_len,
};

verus! {

/// `pat` occurs in `text` at character position `i`.
pub open spec fn occurs_at(text: Seq<char>, pat: Seq<char>, i: int) -> bool {
    0 <= i && i + pat.len() <= text.len() && text.subrange(i, i + pat.len()) == pat
}

/// The character positions, from `from` on, at which `pat` occurs in `text`,
/// found left to right without overlap as `str::match_indices` finds them;
/// an empty `pat` occurs at every position, the end included.
pub open spec fn occurrences(text: Seq<char>, pat: Seq<char>, from: int) -> Seq<int>
    decreases text.len() + 1 - from,
{
    if from < 0 || from > text.len() {
        Seq::empty()
    } else if pat.len() == 0 {
        seq![from] + occurrences(text, pat, from + 1)
    } else if occurs_at(text, pat, from) {
        seq![from] + occurrences(text, pat, from + pat.len())
    } else {
        occurrences(text, pat, from + 1)
    }
}

/// Every position found lies between `from` and the end of `text`, and
/// `pat` occurs there.
proof fn lemma_occurrences_bounds(text: Seq<char>, pat: Seq<char>, from: int)
    requires
        0 <= from,
    ensures
        forall|k: int| 0 <= k < occurrences(text, pat, from).len() ==> {
            let p = #[trigger] occurrences(text, pat, from)[k];
            from <= p <= text.len() && (pat.len() > 0 ==> occurs_at(text, pat, p))
        },
    decreases text.len() + 1 - from,
{
    if from > text.len() {
    } else if pat.len() == 0 {
        lemma_occurrences_bounds(text, pat, from + 1);
        let rest = occurrences(text, pat, from + 1);
        assert forall|k: int| 0 <= k < occurrences(text, pat, from).len() implies {
            let p = #[trigger] occurrences(text, pat, from)[k];
            from <= p <= text.len()
        } by {
            if k > 0 {
                assert(occurrences(text, pat, from)[k] == rest[k - 1]);
            }
        }
    } else if occurs_at(text, pat, from) {
        lemma_occurrences_bounds(text, pat, from + pat.len());
        let rest = occurrences(text, pat, from + pat.len());
        assert forall|k: int| 0 <= k < occurrences(text, pat, from).len() implies {
            let p = #[trigger] occurrences(text, pat, from)[k];
            from <= p <= text.len() && occurs_at(text, pat, p)
        } by {
            if k > 0 {
                assert(occurrences(text, pat, from)[k] == rest[k - 1]);
            }
        }
    } else {
        lemma_occurrences_bounds(text, pat, from + 1);
    }
}

/// Whether `pat` occurs in `text` at position `i`.
fn matches_at(text: &[char], pat: &[char], i: usize) -> (r: bool)
    requires
        i <= text.len(),
    ensures
        r == occurs_at(text@, pat@, i as int),
{
    if pat.len() > text.len() - i {
        return false;
    }
    let mut k: usize = 0;
    while k < pat.len()
        invariant
            0 <= k <= pat.len(),
            i + pat.len() <= text.len(),
            forall|j: int| 0 <= j < k ==> text@[i + j] == pat@[j],
        decreases pat.len() - k,
    {
        if text[i + k] != pat[k] {
            proof {
                assert(text@.subrange(i as int, i + pat.len())[k as int] != pat@[k as int]);
            }
            return false;
        }
        k += 1;
    }
    assert(text@.subrange(i as int, i + pat.len()) =~= pat@);
    true
}

/// The positions of a vector as integers.
pub open spec fn int_positions(v: Seq<usize>) -> Seq<int> {
    v.map_values(|p: usize| p as int)
}

/// The positions at which `pat` occurs in `text` (`str::match_indices`).
fn occurrence_positions(text: &[char], pat: &[char]) -> (r: Vec<usize>)
    ensures
        int_positions(r@) == occurrences(text@, pat@, 0),
{
    let mut r: Vec<usize> = Vec::new();
    let mut from: usize = 0;
    while from < text.len()
        invariant
            0 <= from <= text.len(),
            int_positions(r@) + occurrences(text@, pat@, from as int) == occurrences(text@, pat@, 0),
        decreases text.len() - from,
    {
        let ghost before = int_positions(r@);
        if pat.len() == 0 {
            r.push(from);
            proof {
                assert(int_positions(r@) =~= before.push(from as int));
                assert(before.push(from as int) + occurrences(text@, pat@, from + 1) =~= before + (
                seq![from as int] + occurrences(text@, pat@, from + 1)));
            }
            from += 1;
        } else if matches_at(text, pat, from) {
            r.push(from);
            proof {
                assert(int_positions(r@) =~= before.push(from as int));
                assert(before.push(from as int) + occurrences(text@, pat@, from + pat.len()) =~= before
                    + (seq![from as int] + occurrences(text@, pat@, from + pat.len())));
            }
            from += pat.len();
        } else {
            from += 1;
        }
    }
    if pat.len() == 0 {
        let ghost before = int_positions(r@);
        r.push(from);
        proof {
            assert(int_positions(r@) =~= before.push(from as int));
            assert(occurrences(text@, pat@, from + 1) =~= Seq::<int>::empty());
            assert(occurrences(text@, pat@, from as int) =~= seq![from as int]);
        }
    } else {
        proof {
            assert(!occurs_at(text@, pat@, from as int));
            assert(occurrences(text@, pat@, from + 1) =~= Seq::<int>::empty());
            assert(int_positions(r@) + Seq::<int>::empty() =~= int_positions(r@));
        }
    }
    r
}

/// The byte ranges in `lc` of the occurrences of `tl`.
pub open spec fn term_ranges(lc: Seq<char>, tl: Seq<char>) -> Seq<(int, int)> {
    occurrences(lc, tl, 0).map_values(
        |p: int| (byte_len(lc.take(p)) as int, (byte_len(lc.take(p)) + byte_len(tl)) as int),
    )
}

/// The byte ranges in `lc` of the occurrences of each of `terms` lower-cased,
/// term after term.
pub open spec fn all_term_ranges(lc: Seq<char>, terms: Seq<Seq<char>>) -> Seq<(int, int)>
    decreases terms.len(),
{
    if terms.len() == 0 {
        Seq::empty()
    } else {
        all_term_ranges(lc, terms.drop_last()) + term_ranges(lc, lowercase(terms.last()))
    }
}

/// The pairs of a vector as integers.
pub open spec fn int_pairs(v: Seq<(usize, usize)>) -> Seq<(int, int)> {
    v.map_values(|p: (usize, usize)| (p.0 as int, p.1 as int))
}

/// `a` comes strictly before `b`: smaller start, or equal start and smaller end.
pub open spec fn pair_lt(a: (int, int), b: (int, int)) -> bool {
    a.0 < b.0 || (a.0 == b.0 && a.1 < b.1)
}

/// `x` put into the ordered `s` after every pair not greater than it.
pub open spec fn place_pair(s: Seq<(int, int)>, x: (int, int)) -> Seq<(int, int)>
    decreases s.len(),
{
    if s.len() == 0 {
        seq![x]
    } else if pair_lt(x, s[0]) {
        seq![x] + s
    } else {
        seq![s[0]] + place_pair(s.drop_first(), x)
    }
}

/// `s` ordered by start, then end (`sort_by_key`).
pub open spec fn sorted_pairs(s: Seq<(int, int)>) -> Seq<(int, int)>
    decreases s.len(),
{
    if s.len() == 0 {
        s
    } else {
        place_pair(sorted_pairs(s.drop_last()), s.last())
    }
}

/// Placing `x` inserts it at the first index whose pair is greater.
proof fn lemma_place_pair_is_insert(s: Seq<(int, int)>, x: (int, int), j: int)
    requires
        0 <= j <= s.len(),
        forall|k: int| 0 <= k < j ==> !pair_lt(x, #[trigger] s[k]),
        j < s.len() ==> pair_lt(x, s[j]),
    ensures
        place_pair(s, x) == s.insert(j, x),
    decreases s.len(),
{
    if s.len() == 0 {
        assert(s.insert(j, x) =~= seq![x]);
    } else if j == 0 {
        assert(s.insert(j, x) =~= seq![x] + s);
    } else {
        let t = s.drop_first();
        assert forall|k: int| 0 <= k < j - 1 implies !pair_lt(x, #[trigger] t[k]) by {
            assert(t[k] == s[k + 1]);
        }
        lemma_place_pair_is_insert(t, x, j - 1);
        assert(s.insert(j, x) =~= seq![s[0]] + t.insert(j - 1, x));
    }
}

/// Touching or overlapping ranges of the ordered `s` joined, left to right.
pub open spec fn merged(s: Seq<(int, int)>) -> Seq<(int, int)>
    decreases s.len(),
{
    if s.len() == 0 {
        s
    } else {
        let m = merged(s.drop_last());
        let x = s.last();
        if m.len() > 0 && x.0 <= m.last().1 {
            m.drop_last().push(
                (
                    m.last().0,
                    if x.1 > m.last().1 {
                        x.1
                    } else {
                        m.last().1
                    },
                ),
            )
        } else {
            m.push(x)
        }
    }
}

/// The pairs ordered by start, then end.
fn sort_pairs(v: Vec<(usize, usize)>) -> (r: Vec<(usize, usize)>)
    ensures
        int_pairs(r@) == sorted_pairs(int_pairs(v@)),
{
    let ghost orig = int_pairs(v@);
    let mut sorted: Vec<(usize, usize)> = Vec::new();
    let mut i: usize = 0;
    proof {
        assert(orig.take(0) =~= Seq::<(int, int)>::empty());
        assert(int_pairs(sorted@) =~= Seq::<(int, int)>::empty());
    }
    while i < v.len()
        invariant
            0 <= i <= v.len(),
            orig == int_pairs(v@),
            int_pairs(sorted@) == sorted_pairs(orig.take(i as int)),
        decreases v.len() - i,
    {
        let x = v[i];
        let ghost xi = (x.0 as int, x.1 as int);
        let mut j: usize = 0;
        while j < sorted.len() && !(x.0 < sorted[j].0 || (x.0 == sorted[j].0 && x.1 < sorted[j].1))
            invariant
                0 <= j <= sorted.len(),
                xi == (x.0 as int, x.1 as int),
                forall|k: int| 0 <= k < j ==> !pair_lt(xi, #[trigger] int_pairs(sorted@)[k]),
            decreases sorted.len() - j,
        {
            j += 1;
        }
        proof {
            let prefix = orig.take(i + 1);
            assert(prefix.drop_last() =~= orig.take(i as int));
            assert(prefix.last() == xi);
            lemma_place_pair_is_insert(int_pairs(sorted@), xi, j as int);
        }
        let ghost before = sorted@;
        sorted.insert(j, x);
        proof {
            assert(int_pairs(sorted@) =~= int_pairs(before).insert(j as int, xi));
        }
        i += 1;
    }
    proof {
        assert(orig.take(v.len() as int) =~= orig);
    }
    sorted
}

/// The ordered pairs with touching or overlapping ranges joined.
fn merge_pairs(v: &Vec<(usize, usize)>) -> (r: Vec<(usize, usize)>)
    ensures
        int_pairs(r@) == merged(int_pairs(v@)),
{
    let ghost s = int_pairs(v@);
    let mut m: Vec<(usize, usize)> = Vec::new();
    let mut i: usize = 0;
    proof {
        assert(s.take(0) =~= Seq::<(int, int)>::empty());
        assert(int_pairs(m@) =~= Seq::<(int, int)>::empty());
    }
    while i < v.len()
        invariant
            0 <= i <= v.len(),
            s == int_pairs(v@),
            int_pairs(m@) == merged(s.take(i as int)),
        decreases v.len() - i,
    {
        let (start, end) = v[i];
        let ghost before = m@;
        proof {
            let t = s.take(i + 1);
            assert(t.drop_last() =~= s.take(i as int));
            assert(t.last() == (start as int, end as int));
        }
        let n = m.len();
        if n > 0 && start <= m[n - 1].1 {
            let (a, b) = m[n - 1];
            let e = if end > b {
                end
            } else {
                b
            };
            m.set(n - 1, (a, e));
            proof {
                assert(int_pairs(m@) =~= int_pairs(before).drop_last().push((a as int, e as int)));
            }
        } else {
            m.push((start, end));
            proof {
                assert(int_pairs(m@) =~= int_pairs(before).push((start as int, end as int)));
            }
        }
        i += 1;
    }
    proof {
        assert(s.take(v.len() as int) =~= s);
    }
    m
}

/// The byte offset in `lc` of the first occurrence of `tl`, if any (`str::find`).
pub open spec fn first_match_byte(lc: Seq<char>, tl: Seq<char>) -> Option<int> {
    let occ = occurrences(lc, tl, 0);
    if occ.len() > 0 {
        Some(byte_len(lc.take(occ[0])) as int)
    } else {
        None
    }
}

/// Each query word's first match in the lower-cased `content` starts at a
/// character boundary of `content` itself, so that `content` can be cut
/// there. Lower-casing can change the byte length of a character; where it
/// does, a match can start inside a character of `content`.
pub open spec fn match_starts_fit(query: Seq<char>, content: Seq<char>) -> bool {
    forall|i: int|
        0 <= i < words(query).len() ==> match #[trigger] first_match_byte(
            lowercase(content),
            lowercase(words(query)[i]),
        ) {
            Some(b) => is_char_boundary_at(content, b),
            None => true,
        }
}

/// For each of `terms` that occurs (lower-cased) in `content` lower-cased,
/// the character index of `content` at which its first match starts.
pub open spec fn match_char_indices(content: Seq<char>, terms: Seq<Seq<char>>) -> Seq<int>
    decreases terms.len(),
{
    if terms.len() == 0 {
        Seq::empty()
    } else {
        let rest = match_char_indices(content, terms.drop_last());
        match first_match_byte(lowercase(content), lowercase(terms.last())) {
            Some(b) => rest.push(char_index_at(content, b)),
            None => rest,
        }
    }
}

/// The least member of `s`, if any.
pub open spec fn seq_min(s: Seq<int>) -> Option<int>
    decreases s.len(),
{
    if s.len() == 0 {
        None
    } else {
        match seq_min(s.drop_last()) {
            Some(m) => Some(
                if s.last() < m {
                    s.last()
                } else {
                    m
                },
            ),
            None => Some(s.last()),
        }
    }
}

/// A window of `max` characters of `content` around the character index
/// `match_start`: it starts a third of the window before the match, but no
/// later than where the window still fills up; `…` marks a cut at either end.
/// A content of at most `max` characters is kept whole.
pub open spec fn excerpt(content: Seq<char>, max: nat, match_start: int) -> Seq<char> {
    if content.len() <= max {
        content
    } else {
        let preferred = if match_start >= max / 3 {
            match_start - max / 3
        } else {
            0
        };
        let latest = content.len() - max;
        let start = if preferred < latest {
            preferred
        } else {
            latest
        };
        let end = start + max;
        (if start > 0 {
            seq!['…']
        } else {
            Seq::<char>::empty()
        }) + content.subrange(start, end) + (if end < content.len() {
            seq!['…']
        } else {
            Seq::<char>::empty()
        })
    }
}

/// The first match of the query in `content`, or the start.
pub open spec fn match_start_or_zero(query: Seq<char>, content: Seq<char>) -> int {
    match seq_min(match_char_indices(content, words(query))) {
        Some(k) => k,
        None => 0,
    }
}

/// `p` without a carriage return at its end.
pub open spec fn strip_cr(p: Seq<char>) -> Seq<char> {
    if p.len() > 0 && p.last() == '\r' {
        p.drop_last()
    } else {
        p
    }
}

/// The lines of `s` as `str::lines` gives them: split at line feeds, a
/// carriage return before a line feed dropped, no last line after a final
/// line feed.
pub open spec fn std_lines(s: Seq<char>) -> Seq<Seq<char>> {
    let ps = split_pieces(s, Separator::LineBreak);
    let body = ps.drop_last().map_values(|p: Seq<char>| strip_cr(p));
    if ps.last().len() == 0 {
        body
    } else {
        body.push(ps.last())
    }
}

/// `lines` without the first line whose trimmed text is `title`.
pub open spec fn without_title_line(lines: Seq<Seq<char>>, title: Seq<char>) -> Seq<Seq<char>>
    decreases lines.len(),
{
    if lines.len() == 0 {
        lines
    } else if trim(lines[0]) == title {
        lines.drop_first()
    } else {
        seq![lines[0]] + without_title_line(lines.drop_first(), title)
    }
}

/// The text a search result previews. With a title, the content's lines
/// joined by line feeds, without the first line that repeats the trimmed
/// title when that is not blank; without one, the content itself. Either way
/// trimmed.
pub open spec fn preview_body(title: Option<String>, content: Seq<char>) -> Seq<char> {
    match title {
        Some(t) => {
            let lines = std_lines(content);
            let kept = if trim(t@).len() > 0 {
                without_title_line(lines, trim(t@))
            } else {
                lines
            };
            trim(join(kept, '\n'))
        },
        None => trim(content),
    }
}

/// The characters a search result body shows.
pub const SEARCH_BODY_PREVIEW_LIMIT: usize = 96;

/// The text under a search result, if its body is not blank.
pub open spec fn body_preview_text(query: Seq<char>, title: Option<String>, content: Seq<char>) -> Option<Seq<char>> {
    let body = preview_body(title, content);
    if body.len() == 0 {
        None
    } else {
        Some(excerpt(body, SEARCH_BODY_PREVIEW_LIMIT as nat, match_start_or_zero(query, body)))
    }
}

/// Whether byte offset `b` is a character boundary of `t`.
fn boundary_in(offs: &Vec<usize>, Ghost(t): Ghost<Seq<char>>, b: usize) -> (r: bool)
    requires
        offs.len() == t.len() + 1,
        forall|j: int| 0 <= j <= t.len() ==> #[trigger] offs@[j] == byte_len(t.take(j)),
    ensures
        r == is_char_boundary_at(t, b as int),
{
    let mut k: usize = 0;
    while k < offs.len()
        invariant
            0 <= k <= offs.len(),
            offs.len() == t.len() + 1,
            forall|j: int| 0 <= j <= t.len() ==> #[trigger] offs@[j] == byte_len(t.take(j)),
            forall|j: int| 0 <= j < k ==> byte_len(t.take(j)) != b,
        decreases offs.len() - k,
    {
        if offs[k] == b {
            return true;
        }
        k += 1;
    }
    false
}

/// `lines` without the first line whose trimmed text is `title`.
fn without_title_line_of(lines: &Vec<Vec<char>>, title: &[char]) -> (r: Vec<Vec<char>>)
    ensures
        crate::strings::char_views(r@) == without_title_line(crate::strings::char_views(lines@), title@),
{
    let ghost ls = crate::strings::char_views(lines@);
    let mut out: Vec<Vec<char>> = Vec::new();
    let mut skipped = false;
    let mut i: usize = 0;
    proof {
        assert(ls.skip(0) =~= ls);
        assert(crate::strings::char_views(out@) + without_title_line(ls, title@) =~= without_title_line(ls, title@));
    }
    while i < lines.len()
        invariant
            0 <= i <= lines.len(),
            ls == crate::strings::char_views(lines@),
            !skipped ==> crate::strings::char_views(out@) + without_title_line(ls.skip(i as int), title@)
                == without_title_line(ls, title@),
            skipped ==> crate::strings::char_views(out@) + ls.skip(i as int) == without_title_line(ls, title@),
        decreases lines.len() - i,
    {
        let ghost before = crate::strings::char_views(out@);
        proof {
            assert(ls.skip(i as int)[0] == ls[i as int]);
            assert(ls.skip(i as int).drop_first() =~= ls.skip(i + 1));
        }
        let trimmed = trim_chars(lines[i].as_slice());
        if !skipped && chars_equal(trimmed.as_slice(), title) {
            skipped = true;
        } else {
            out.push(vstd::slice::slice_to_vec(lines[i].as_slice()));
            proof {
                assert(crate::strings::char_views(out@) =~= before.push(ls[i as int]));
                assert(before.push(ls[i as int]) + ls.skip(i + 1) =~= before + ls.skip(i as int));
                assert(before.push(ls[i as int]) + without_title_line(ls.skip(i + 1), title@) =~= before
                    + (seq![ls[i as int]] + without_title_line(ls.skip(i + 1), title@)));
            }
        }
        i += 1;
    }
    proof {
        assert(ls.skip(lines.len() as int) =~= Seq::<Seq<char>>::empty());
        assert(crate::strings::char_views(out@) + Seq::<Seq<char>>::empty() =~= crate::strings::char_views(out@));
    }
    out
}

/// The lines of `s` as `str::lines` gives them.
fn std_lines_of(s: &[char]) -> (r: Vec<Vec<char>>)
    ensures
        crate::strings::char_views(r@) == std_lines(s@),
{
    let pieces = split_chars(s, Separator::LineBreak);
    let ghost ps = crate::strings::char_views(pieces@);
    let n = pieces.len();
    let mut out: Vec<Vec<char>> = Vec::new();
    let mut i: usize = 0;
    proof {
        assert(ps.len() >= 1);
    }
    while i + 1 < n
        invariant
            0 <= i < n,
            n == pieces.len(),
            ps == crate::strings::char_views(pieces@),
            ps == split_pieces(s@, Separator::LineBreak),
            crate::strings::char_views(out@) =~= ps.drop_last().map_values(|p: Seq<char>| strip_cr(p)).take(i as int),
        decreases n - i,
    {
        let piece = &pieces[i];
        let m = piece.len();
        let mut line: Vec<char> = Vec::new();
        let keep = if m > 0 && piece[m - 1] == '\r' {
            m - 1
        } else {
            m
        };
        let mut k: usize = 0;
        while k < keep
            invariant
                0 <= k <= keep <= m,
                i < n,
                n == pieces.len(),
                m == pieces@[i as int]@.len(),
                line@ =~= pieces@[i as int]@.take(k as int),
            decreases keep - k,
        {
            line.push(pieces[i][k]);
            k += 1;
        }
        let ghost before = crate::strings::char_views(out@);
        out.push(line);
        proof {
            assert(pieces@[i as int]@.take(keep as int) =~= strip_cr(ps[i as int]));
            assert(crate::strings::char_views(out@) =~= before.push(strip_cr(ps[i as int])));
        }
        i += 1;
    }
    let last = &pieces[n - 1];
    proof {
        assert(ps.drop_last().map_values(|p: Seq<char>| strip_cr(p)).take(i as int)
            =~= ps.drop_last().map_values(|p: Seq<char>| strip_cr(p)));
        assert(ps.last() == last@);
    }
    if last.len() > 0 {
        let ghost before = crate::strings::char_views(out@);
        out.push(vstd::slice::slice_to_vec(last.as_slice()));
        proof {
            assert(crate::strings::char_views(out@) =~= before.push(last@));
        }
    }
    out
}

/// The text a search result previews.
fn preview_body_string(title: &Option<String>, content: &str) -> (r: String)
    ensures
        r@ == preview_body(*title, content@),
{
    let content_chars = chars_of(content);
    match title {
        Some(t) => {
            let tc = chars_of(t.as_str());
            let trimmed_title = trim_chars(tc.as_slice());
            let lines = std_lines_of(content_chars.as_slice());
            let kept = if trimmed_title.len() > 0 {
                without_title_line_of(&lines, trimmed_title.as_slice())
            } else {
                lines
            };
            let joined = join_chars(&kept, '\n');
            string_of(trim_chars(joined.as_slice()).as_slice())
        },
        None => string_of(trim_chars(content_chars.as_slice()).as_slice()),
    }
}

/// Every range of `s` starts no later than it ends.
pub open spec fn ranges_wf(s: Seq<(int, int)>) -> bool {
    forall|k: int| 0 <= k < s.len() ==> (#[trigger] s[k]).0 <= s[k].1
}

/// Every range ends before the next one starts: they neither touch nor
/// overlap, and come in order.
pub open spec fn ranges_separated(s: Seq<(int, int)>) -> bool {
    forall|i: int, j: int| 0 <= i < j < s.len() ==> (#[trigger] s[i]).1 < (#[trigger] s[j]).0
}

proof fn lemma_term_ranges_wf(lc: Seq<char>, terms: Seq<Seq<char>>)
    ensures
        ranges_wf(all_term_ranges(lc, terms)),
    decreases terms.len(),
{
    if terms.len() > 0 {
        lemma_term_ranges_wf(lc, terms.drop_last());
        let a = all_term_ranges(lc, terms.drop_last());
        let b = term_ranges(lc, lowercase(terms.last()));
        assert forall|k: int| 0 <= k < (a + b).len() implies (#[trigger] (a + b)[k]).0 <= (a
            + b)[k].1 by {
            if k >= a.len() {
                assert((a + b)[k] == b[k - a.len()]);
            }
        }
    }
}

proof fn lemma_place_pair_wf(s: Seq<(int, int)>, x: (int, int))
    requires
        ranges_wf(s),
        x.0 <= x.1,
    ensures
        ranges_wf(place_pair(s, x)),
    decreases s.len(),
{
    if s.len() > 0 && !pair_lt(x, s[0]) {
        let t = s.drop_first();
        assert forall|k: int| 0 <= k < t.len() implies (#[trigger] t[k]).0 <= t[k].1 by {
            assert(t[k] == s[k + 1]);
        }
        lemma_place_pair_wf(t, x);
        let p = place_pair(t, x);
        assert forall|k: int| 0 <= k < (seq![s[0]] + p).len() implies (#[trigger] (seq![s[0]]
            + p)[k]).0 <= (seq![s[0]] + p)[k].1 by {
            if k > 0 {
                assert((seq![s[0]] + p)[k] == p[k - 1]);
            }
        }
    } else if s.len() > 0 {
        assert forall|k: int| 0 <= k < (seq![x] + s).len() implies (#[trigger] (seq![x] + s)[k]).0
            <= (seq![x] + s)[k].1 by {
            if k > 0 {
                assert((seq![x] + s)[k] == s[k - 1]);
            }
        }
    }
}

proof fn lemma_sorted_pairs_wf(s: Seq<(int, int)>)
    requires
        ranges_wf(s),
    ensures
        ranges_wf(sorted_pairs(s)),
    decreases s.len(),
{
    if s.len() > 0 {
        let init = s.drop_last();
        assert forall|k: int| 0 <= k < init.len() implies (#[trigger] init[k]).0 <= init[k].1 by {
            assert(init[k] == s[k]);
        }
        lemma_sorted_pairs_wf(init);
        lemma_place_pair_wf(sorted_pairs(init), s.last());
    }
}

proof fn lemma_merged_separated(s: Seq<(int, int)>)
    requires
        ranges_wf(s),
    ensures
        ranges_wf(merged(s)),
        ranges_separated(merged(s)),
    decreases s.len(),
{
    if s.len() > 0 {
        let init = s.drop_last();
        assert forall|k: int| 0 <= k < init.len() implies (#[trigger] init[k]).0 <= init[k].1 by {
            assert(init[k] == s[k]);
        }
        lemma_merged_separated(init);
        let m = merged(init);
        let x = s.last();
        if m.len() > 0 && x.0 <= m.last().1 {
            let e = if x.1 > m.last().1 {
                x.1
            } else {
                m.last().1
            };
            let r = m.drop_last().push((m.last().0, e));
            assert(merged(s) == r);
            assert forall|i: int, j: int| 0 <= i < j < r.len() implies (#[trigger] r[i]).1 < (
            #[trigger] r[j]).0 by {
                assert(m[i].1 < m[j].0);
            }
            assert forall|k: int| 0 <= k < r.len() implies (#[trigger] r[k]).0 <= r[k].1 by {
                assert(m[k].0 <= m[k].1);
            }
        } else {
            let r = m.push(x);
            assert(merged(s) == r);
            assert forall|i: int, j: int| 0 <= i < j < r.len() implies (#[trigger] r[i]).1 < (
            #[trigger] r[j]).0 by {
                if j == m.len() {
                    if i < m.len() - 1 {
                        assert(m[i].1 < m[m.len() - 1].0);
                        assert(m[m.len() - 1].0 <= m[m.len() - 1].1);
                    }
                } else {
                    assert(m[i].1 < m[j].0);
                }
            }
        }
    }
}

/// The byte ranges to highlight for a query never touch or overlap: each
/// starts no later than it ends, and ends before the next one starts.
pub proof fn lemma_match_ranges_separated(query: Seq<char>, content: Seq<char>)
    ensures
        ranges_wf(merged(sorted_pairs(all_term_ranges(lowercase(content), words(query))))),
        ranges_separated(merged(sorted_pairs(all_term_ranges(lowercase(content), words(query))))),
{
    let all = all_term_ranges(lowercase(content), words(query));
    lemma_term_ranges_wf(lowercase(content), words(query));
    lemma_sorted_pairs_wf(all);
    lemma_merged_separated(sorted_pairs(all));
}

impl SearchFilters {
    /// The words of the query, in order (`split_whitespace`).
    pub fn query_terms(&self) -> (r: Vec<String>)
        ensures
            string_views(r@) == words(self.query@),
    {
        let chars = chars_of(self.query.as_str());
        let ws = words_of(chars.as_slice());
        strings_of(&ws)
    }

    /// The byte ranges of `content` lower-cased where a query word,
    /// lower-cased, occurs; ordered, with touching or overlapping ranges
    /// joined.
    pub fn text_match_ranges(&self, content: &str) -> (r: Vec<(usize, usize)>)
        ensures
            int_pairs(r@) == merged(
                sorted_pairs(all_term_ranges(lowercase(content@), words(self.query@))),
            ),
            ranges_wf(int_pairs(r@)),
            ranges_separated(int_pairs(r@)),
    {
        proof {
            lemma_match_ranges_separated(self.query@, content@);
        }
        let content_lower = to_lowercase_text(content);
        let lc = chars_of(content_lower.as_str());
        let total = text_byte_len(content_lower.as_str());
        let offs = prefix_byte_offsets(lc.as_slice(), total);
        let terms = self.query_terms();
        let ghost ws = words(self.query@);
        let mut ranges: Vec<(usize, usize)> = Vec::new();
        let mut i: usize = 0;
        proof {
            assert(ws.take(0) =~= Seq::<Seq<char>>::empty());
            assert(int_pairs(ranges@) =~= Seq::<(int, int)>::empty());
        }
        while i < terms.len()
            invariant
                0 <= i <= terms.len(),
                string_views(terms@) == ws,
                lc@ == lowercase(content@),
                total == byte_len(lc@),
                offs.len() == lc.len() + 1,
                forall|k: int| 0 <= k <= lc.len() ==> #[trigger] offs@[k] == byte_len(lc@.take(k)),
                int_pairs(ranges@) == all_term_ranges(lc@, ws.take(i as int)),
            decreases terms.len() - i,
        {
            let term_lower = to_lowercase_text(terms[i].as_str());
            let tl = chars_of(term_lower.as_str());
            let tlen = text_byte_len(term_lower.as_str());
            let positions = occurrence_positions(lc.as_slice(), tl.as_slice());
            let ghost occ = occurrences(lc@, tl@, 0);
            proof {
                lemma_occurrences_bounds(lc@, tl@, 0);
                assert(ws[i as int] == terms@[i as int]@);
                let t = ws.take(i + 1);
                assert(t.drop_last() =~= ws.take(i as int));
                assert(t.last() == ws[i as int]);
            }
            let ghost start_ranges = int_pairs(ranges@);
            let mut k: usize = 0;
            while k < positions.len()
                invariant
                    0 <= k <= positions.len(),
                    int_positions(positions@) == occ,
                    occ == occurrences(lc@, tl@, 0),
                    tl@ == lowercase(terms@[i as int]@),
                    tlen == byte_len(tl@),
                    total == byte_len(lc@),
                    offs.len() == lc.len() + 1,
                    forall|q: int| 0 <= q <= lc.len() ==> #[trigger] offs@[q] == byte_len(lc@.take(q)),
                    forall|q: int| 0 <= q < occ.len() ==> {
                        let p = #[trigger] occ[q];
                        0 <= p <= lc@.len() && (tl@.len() > 0 ==> occurs_at(lc@, tl@, p))
                    },
                    int_pairs(ranges@) == start_ranges + term_ranges(lc@, tl@).take(k as int),
                decreases positions.len() - k,
            {
                let p = positions[k];
                proof {
                    assert(occ[k as int] == p as int);
                    if tl@.len() > 0 {
                        assert(lc@.take(p + tl@.len()) =~= lc@.take(p as int) + tl@);
                        lemma_byte_len_add(lc@.take(p as int), tl@);
                        lemma_byte_len_take_le(lc@, p + tl@.len());
                    } else {
                        assert(tl@ =~= Seq::<char>::empty());
                    }
                    lemma_byte_len_take_le(lc@, p as int);
                }
                let start = offs[p];
                let ghost before = ranges@;
                ranges.push((start, start + tlen));
                proof {
                    assert(int_pairs(ranges@) =~= int_pairs(before).push((start as int, start + tlen)));
                    assert(term_ranges(lc@, tl@).take(k + 1) =~= term_ranges(lc@, tl@).take(
                        k as int,
                    ).push(term_ranges(lc@, tl@)[k as int]));
                }
                k += 1;
            }
            proof {
                assert(term_ranges(lc@, tl@).take(positions.len() as int) =~= term_ranges(lc@, tl@));
            }
            i += 1;
        }
        proof {
            assert(ws.take(terms.len() as int) =~= ws);
        }
        let sorted = sort_pairs(ranges);
        merge_pairs(&sorted)
    }

    /// The byte offset in `lc` at which the first match of the `i`th query
    /// word, lower-cased, starts.
    fn first_match_bytes(&self, lc: &Vec<char>, offs: &Vec<usize>, terms: &Vec<String>, i: usize) -> (r: Option<usize>)
        requires
            i < terms.len(),
            offs.len() == lc.len() + 1,
            forall|k: int| 0 <= k <= lc.len() ==> #[trigger] offs@[k] == byte_len(lc@.take(k)),
        ensures
            match r {
                Some(b) => first_match_byte(lc@, lowercase(terms@[i as int]@)) == Some(b as int),
                None => first_match_byte(lc@, lowercase(terms@[i as int]@)) is None,
            },
    {
        let term_lower = to_lowercase_text(terms[i].as_str());
        let tl = chars_of(term_lower.as_str());
        let positions = occurrence_positions(lc.as_slice(), tl.as_slice());
        proof {
            lemma_occurrences_bounds(lc@, tl@, 0);
        }
        if positions.len() > 0 {
            let p = positions[0];
            proof {
                assert(occurrences(lc@, tl@, 0)[0] == p as int);
            }
            Some(offs[p])
        } else {
            None
        }
    }

    /// Whether every query word's first match in `content` lower-cased starts
    /// at a character boundary of `content`.
    pub fn match_starts_fit_in(&self, content: &str) -> (r: bool)
        ensures
            r == match_starts_fit(self.query@, content@),
    {
        let content_lower = to_lowercase_text(content);
        let lc = chars_of(content_lower.as_str());
        let offs = prefix_byte_offsets(lc.as_slice(), text_byte_len(content_lower.as_str()));
        let cc = chars_of(content);
        let coffs = prefix_byte_offsets(cc.as_slice(), text_byte_len(content));
        let terms = self.query_terms();
        let ghost ws = words(self.query@);
        let mut i: usize = 0;
        while i < terms.len()
            invariant
                0 <= i <= terms.len(),
                string_views(terms@) == ws,
                ws == words(self.query@),
                lc@ == lowercase(content@),
                cc@ == content@,
                offs.len() == lc.len() + 1,
                forall|k: int| 0 <= k <= lc.len() ==> #[trigger] offs@[k] == byte_len(lc@.take(k)),
                coffs.len() == cc.len() + 1,
                forall|k: int| 0 <= k <= cc.len() ==> #[trigger] coffs@[k] == byte_len(cc@.take(k)),
                forall|j: int|
                    0 <= j < i ==> match #[trigger] first_match_byte(lc@, lowercase(ws[j])) {
                        Some(b) => is_char_boundary_at(content@, b),
                        None => true,
                    },
            decreases terms.len() - i,
        {
            proof {
                assert(ws[i as int] == terms@[i as int]@);
            }
            match self.first_match_bytes(&lc, &offs, &terms, i) {
                Some(b) => {
                    if !boundary_in(&coffs, Ghost(cc@), b) {
                        proof {
                            assert(first_match_byte(
                                lowercase(content@),
                                lowercase(words(self.query@)[i as int]),
                            ) == Some(b as int));
                        }
                        return false;
                    }
                },
                None => {},
            }
            i += 1;
        }
        true
    }

    /// The character index of `content` at which the earliest first match of
    /// a query word (both lower-cased) starts. Each such match must start at
    /// a character boundary of `content`.
    pub fn first_match_char_index(&self, content: &str) -> (r: Option<usize>)
        requires
            match_starts_fit(self.query@, content@),
        ensures
            match r {
                Some(k) => seq_min(match_char_indices(content@, words(self.query@))) == Some(k as int),
                None => seq_min(match_char_indices(content@, words(self.query@))) is None,
            },
    {
        let content_lower = to_lowercase_text(content);
        let lc = chars_of(content_lower.as_str());
        let offs = prefix_byte_offsets(lc.as_slice(), text_byte_len(content_lower.as_str()));
        let cc = chars_of(content);
        let coffs = prefix_byte_offsets(cc.as_slice(), text_byte_len(content));
        let terms = self.query_terms();
        let ghost ws = words(self.query@);
        let mut best: Option<usize> = None;
        let mut i: usize = 0;
        proof {
            assert(ws.take(0) =~= Seq::<Seq<char>>::empty());
        }
        while i < terms.len()
            invariant
                0 <= i <= terms.len(),
                string_views(terms@) == ws,
                ws == words(self.query@),
                match_starts_fit(self.query@, content@),
                lc@ == lowercase(content@),
                cc@ == content@,
                offs.len() == lc.len() + 1,
                forall|k: int| 0 <= k <= lc.len() ==> #[trigger] offs@[k] == byte_len(lc@.take(k)),
                coffs.len() == cc.len() + 1,
                forall|k: int| 0 <= k <= cc.len() ==> #[trigger] coffs@[k] == byte_len(cc@.take(k)),
                match best {
                    Some(k) => seq_min(match_char_indices(content@, ws.take(i as int))) == Some(k as int),
                    None => seq_min(match_char_indices(content@, ws.take(i as int))) is None,
                },
            decreases terms.len() - i,
        {
            proof {
                assert(ws[i as int] == terms@[i as int]@);
                let t = ws.take(i + 1);
                assert(t.drop_last() =~= ws.take(i as int));
                assert(t.last() == ws[i as int]);
            }
            match self.first_match_bytes(&lc, &offs, &terms, i) {
                Some(b) => {
                    proof {
                        assert(match first_match_byte(lowercase(content@), lowercase(ws[i as int])) {
                            Some(b) => is_char_boundary_at(content@, b),
                            None => true,
                        });
                    }
                    let k = char_index_of_offset(&coffs, Ghost(cc@), b);
                    proof {
                        let s0 = match_char_indices(content@, ws.take(i as int));
                        assert(match_char_indices(content@, ws.take(i + 1)) == s0.push(k as int));
                        assert(s0.push(k as int).drop_last() =~= s0);
                    }
                    best = match best {
                        Some(m) => Some(if k < m { k } else { m }),
                        None => Some(k),
                    };
                },
                None => {
                    proof {
                        let s0 = match_char_indices(content@, ws.take(i as int));
                        assert(match_char_indices(content@, ws.take(i + 1)) == s0);
                    }
                },
            }
            i += 1;
        }
        proof {
            assert(ws.take(terms.len() as int) =~= ws);
        }
        best
    }

    /// `content` itself when it has at most `max_chars` characters, else a
    /// window of `max_chars` characters around the first match of the query,
    /// marked with `…` where it is cut.
    pub fn excerpt_around_match(&self, content: &str, max_chars: usize) -> (r: String)
        requires
            content@.len() > max_chars ==> match_starts_fit(self.query@, content@),
        ensures
            r@ == excerpt(content@, max_chars as nat, match_start_or_zero(self.query@, content@)),
    {
        let chars = chars_of(content);
        if chars.len() <= max_chars {
            return string_of(chars.as_slice());
        }
        let match_start = match self.first_match_char_index(content) {
            Some(k) => k,
            None => 0,
        };
        let third = max_chars / 3;
        let preferred_start = if match_start >= third {
            match_start - third
        } else {
            0
        };
        let max_start = chars.len() - max_chars;
        let start = if preferred_start < max_start {
            preferred_start
        } else {
            max_start
        };
        let end = start + max_chars;
        let mut out: Vec<char> = Vec::new();
        if start > 0 {
            out.push('…');
        }
        let ghost lead = out@;
        let mut k: usize = start;
        while k < end
            invariant
                start <= k <= end <= chars.len(),
                out@ =~= lead + chars@.subrange(start as int, k as int),
            decreases end - k,
        {
            out.push(chars[k]);
            k += 1;
        }
        if end < chars.len() {
            out.push('…');
        }
        string_of(out.as_slice())
    }

    /// The preview under a search result: its body without the line that
    /// repeats the title, trimmed, as an excerpt around the first match;
    /// nothing when the body is blank.
    pub fn body_preview(&self, record: &Record) -> (r: Option<String>)
        requires
            preview_body(record.title, record.content@).len() > SEARCH_BODY_PREVIEW_LIMIT
                ==> match_starts_fit(self.query@, preview_body(record.title, record.content@)),
        ensures
            match r {
                Some(s) => body_preview_text(self.query@, record.title, record.content@) == Some(s@),
                None => body_preview_text(self.query@, record.title, record.content@) is None,
            },
    {
        let body = preview_body_string(&record.title, record.content.as_str());
        let chars = chars_of(body.as_str());
        if chars.len() == 0 {
            return None;
        }
        Some(self.excerpt_around_match(body.as_str(), SEARCH_BODY_PREVIEW_LIMIT))
    }

    /// The preview under a search result, or `None` when its body must be
    /// cut around a match that starts inside one of its characters, as
    /// lower-casing can move a match off the character boundaries.
    pub fn checked_body_preview(&self, record: &Record) -> (r: Option<Option<String>>)
        ensures
            match r {
                Some(Some(s)) => body_preview_text(self.query@, record.title, record.content@) == Some(s@),
                Some(None) => body_preview_text(self.query@, record.title, record.content@) is None,
                None => preview_body(record.title, record.content@).len() > SEARCH_BODY_PREVIEW_LIMIT
                    && !match_starts_fit(self.query@, preview_body(record.title, record.content@)),
            },
    {
        let body = preview_body_string(&record.title, record.content.as_str());
        let chars = chars_of(body.as_str());
        if chars.len() > SEARCH_BODY_PREVIEW_LIMIT && !self.match_starts_fit_in(body.as_str()) {
            return None;
        }
        Some(self.body_preview(record))
    }
}

} // verus!
