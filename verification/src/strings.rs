//! Character-sequence operations: trimming, splitting and joining.
//!
//! Each operation is stated as a spec function over `Seq<char>` and implemented
//! by an executable function over `Vec<char>` that is proved to compute it.
use vstd::prelude::*;

use crate::unicode::{is_white_space, is_whitespace_char};

verus! {

broadcast use vstd::string::group_string_axioms;

/// The character classes on which text is split.
#[derive(Clone, Copy, PartialEq, Eq, Debug)]
pub enum Separator {
    /// Any character with the Unicode `White_Space` property.
    Whitespace,
    /// The line feed `'\n'`.
    LineBreak,
    /// The delimiters of a tag or person list: `,`, `，` and any white space.
    ListDelimiter,
    /// The colon `':'` between the hour and the minute of a clock time.
    Colon,
}

/// Whether `c` separates pieces under `kind`.
pub open spec fn is_separator(kind: Separator, c: char) -> bool {
    match kind {
        Separator::Whitespace => is_white_space(c),
        Separator::LineBreak => c == '\n',
        Separator::ListDelimiter => c == ',' || c == '，' || is_white_space(c),
        Separator::Colon => c == ':',
    }
}

/// Whether `c` separates pieces under `kind`.
pub fn is_separator_char(kind: Separator, c: char) -> (r: bool)
    ensures
        r == is_separator(kind, c),
{
    match kind {
        Separator::Whitespace => is_whitespace_char(c),
        Separator::LineBreak => c == '\n',
        Separator::ListDelimiter => c == ',' || c == '，' || is_whitespace_char(c),
        Separator::Colon => c == ':',
    }
}

/// The views of a vector of character vectors.
pub open spec fn char_views(v: Seq<Vec<char>>) -> Seq<Seq<char>> {
    v.map_values(|x: Vec<char>| x@)
}

/// The views of a sequence of strings.
pub open spec fn string_views(v: Seq<String>) -> Seq<Seq<char>> {
    v.map_values(|x: String| x@)
}

/// `s` without its leading white space.
pub open spec fn trim_start(s: Seq<char>) -> Seq<char>
    decreases s.len(),
{
    if s.len() > 0 && is_white_space(s[0]) {
        trim_start(s.drop_first())
    } else {
        s
    }
}

/// `s` without its trailing white space.
pub open spec fn trim_end(s: Seq<char>) -> Seq<char>
    decreases s.len(),
{
    if s.len() > 0 && is_white_space(s.last()) {
        trim_end(s.drop_last())
    } else {
        s
    }
}

/// `s` without leading and trailing white space (`str::trim`).
pub open spec fn trim(s: Seq<char>) -> Seq<char> {
    trim_end(trim_start(s))
}

/// Every character of `s` is white space (so `s.trim()` is empty).
pub open spec fn is_blank(s: Seq<char>) -> bool {
    forall|i: int| 0 <= i < s.len() ==> is_white_space(#[trigger] s[i])
}

/// Splitting `s` left to right: the finished pieces, and the piece being read.
pub open spec fn split_state(s: Seq<char>, kind: Separator) -> (Seq<Seq<char>>, Seq<char>)
    decreases s.len(),
{
    if s.len() == 0 {
        (Seq::empty(), Seq::empty())
    } else {
        let (done, cur) = split_state(s.drop_last(), kind);
        if is_separator(kind, s.last()) {
            (done.push(cur), Seq::empty())
        } else {
            (done, cur.push(s.last()))
        }
    }
}

/// The pieces of `s` between separators, empty pieces included (`str::split`).
pub open spec fn split_pieces(s: Seq<char>, kind: Separator) -> Seq<Seq<char>> {
    split_state(s, kind).0.push(split_state(s, kind).1)
}

/// The non-empty members of `ps`, in order.
pub open spec fn non_empty(ps: Seq<Seq<char>>) -> Seq<Seq<char>>
    decreases ps.len(),
{
    if ps.len() == 0 {
        Seq::empty()
    } else if ps.last().len() > 0 {
        non_empty(ps.drop_last()).push(ps.last())
    } else {
        non_empty(ps.drop_last())
    }
}

/// The words of `s`: its maximal runs of non-white-space characters
/// (`str::split_whitespace`).
pub open spec fn words(s: Seq<char>) -> Seq<Seq<char>> {
    non_empty(split_pieces(s, Separator::Whitespace))
}

/// The members of `ps` joined with `sep` between neighbours (`join`).
pub open spec fn join(ps: Seq<Seq<char>>, sep: char) -> Seq<char>
    decreases ps.len(),
{
    if ps.len() == 0 {
        Seq::empty()
    } else if ps.len() == 1 {
        ps[0]
    } else {
        join(ps.drop_last(), sep).push(sep) + ps.last()
    }
}

/// Calls `String::push`, which appends `c` to the end of `s`.
#[verifier::external_body]
fn push_char(s: &mut String, c: char)
    ensures
        final(s)@ == old(s)@.push(c),
{
    s.push(c);
}

/// The lower-case form of a text, as `str::to_lowercase` computes it.
pub uninterp spec fn lowercase(s: Seq<char>) -> Seq<char>;

/// Calls `str::to_lowercase`, which maps every character to its Unicode
/// lower-case form. The contract only names the result; it does not state
/// the Unicode case mapping.
#[verifier::external_body]
pub(crate) fn to_lowercase_text(s: &str) -> (r: String)
    ensures
        r@ == lowercase(s@),
{
    s.to_lowercase()
}

/// The characters of `s`, in order.
pub fn chars_of(s: &str) -> (v: Vec<char>)
    ensures
        v@ == s@,
{
    let mut v: Vec<char> = Vec::new();
    for c in it: s.chars()
        invariant
            v@ == it.seq().take(it.index() as int),
    {
        v.push(c);
    }
    v
}

/// A string holding exactly the characters of `v`.
pub fn string_of(v: &[char]) -> (s: String)
    ensures
        s@ == v@,
{
    let mut s = String::new();
    let mut i: usize = 0;
    while i < v.len()
        invariant
            0 <= i <= v.len(),
            s@ == v@.take(i as int),
        decreases v.len() - i,
    {
        push_char(&mut s, v[i]);
        proof {
            assert(v@.take(i + 1) =~= v@.take(i as int).push(v@[i as int]));
        }
        i += 1;
    }
    assert(v@.take(v.len() as int) =~= v@);
    s
}

/// Strings holding the character vectors of `v`, in order.
pub fn strings_of(v: &Vec<Vec<char>>) -> (r: Vec<String>)
    ensures
        string_views(r@) == char_views(v@),
{
    let mut r: Vec<String> = Vec::new();
    let mut i: usize = 0;
    while i < v.len()
        invariant
            0 <= i <= v.len(),
            string_views(r@) =~= char_views(v@).take(i as int),
        decreases v.len() - i,
    {
        let s = string_of(v[i].as_slice());
        let ghost old_r = r@;
        r.push(s);
        proof {
            assert(r@ =~= old_r.push(s));
            assert(string_views(r@) =~= string_views(old_r).push(s@));
            assert(char_views(v@).take(i + 1) =~= char_views(v@).take(i as int).push(v@[i as int]@));
        }
        i += 1;
    }
    r
}

/// The character vectors of the strings in `v`, in order.
pub fn char_vectors_of(v: &[String]) -> (r: Vec<Vec<char>>)
    ensures
        char_views(r@) == string_views(v@),
{
    let mut r: Vec<Vec<char>> = Vec::new();
    let mut i: usize = 0;
    while i < v.len()
        invariant
            0 <= i <= v.len(),
            char_views(r@) =~= string_views(v@).take(i as int),
        decreases v.len() - i,
    {
        let c = chars_of(v[i].as_str());
        let ghost old_r = r@;
        r.push(c);
        proof {
            assert(r@ =~= old_r.push(c));
            assert(char_views(r@) =~= char_views(old_r).push(c@));
            assert(string_views(v@).take(i + 1) =~= string_views(v@).take(i as int).push(v@[i as int]@));
        }
        i += 1;
    }
    r
}

/// Whether two character sequences are equal.
pub fn chars_equal(a: &[char], b: &[char]) -> (r: bool)
    ensures
        r == (a@ == b@),
{
    if a.len() != b.len() {
        return false;
    }
    let mut i: usize = 0;
    while i < a.len()
        invariant
            0 <= i <= a.len(),
            a.len() == b.len(),
            forall|k: int| 0 <= k < i ==> a@[k] == b@[k],
        decreases a.len() - i,
    {
        if a[i] != b[i] {
            return false;
        }
        i += 1;
    }
    assert(a@ =~= b@);
    true
}

/// Whether two strings hold the same characters.
pub fn text_equals(a: &str, b: &str) -> (r: bool)
    ensures
        r == (a@ == b@),
{
    let x = chars_of(a);
    let y = chars_of(b);
    chars_equal(x.as_slice(), y.as_slice())
}

/// Whether every character of `s` is white space.
pub fn is_blank_chars(s: &[char]) -> (r: bool)
    ensures
        r == is_blank(s@),
{
    let mut i: usize = 0;
    while i < s.len()
        invariant
            0 <= i <= s.len(),
            forall|k: int| 0 <= k < i ==> is_white_space(#[trigger] s@[k]),
        decreases s.len() - i,
    {
        if !is_whitespace_char(s[i]) {
            return false;
        }
        i += 1;
    }
    true
}

/// Skipping a white-space prefix is what `trim_start` does.
pub proof fn lemma_trim_start_skip(s: Seq<char>, i: int)
    requires
        0 <= i <= s.len(),
        forall|k: int| 0 <= k < i ==> is_white_space(#[trigger] s[k]),
        i < s.len() ==> !is_white_space(s[i]),
    ensures
        trim_start(s) =~= s.skip(i),
    decreases i,
{
    if i > 0 {
        assert(is_white_space(s[0]));
        let t = s.drop_first();
        assert forall|k: int| 0 <= k < i - 1 implies is_white_space(#[trigger] t[k]) by {
            assert(t[k] == s[k + 1]);
        }
        lemma_trim_start_skip(t, i - 1);
        assert(t.skip(i - 1) =~= s.skip(i));
    }
}

/// Cutting off a white-space suffix is what `trim_end` does.
pub proof fn lemma_trim_end_take(s: Seq<char>, j: int)
    requires
        0 <= j <= s.len(),
        forall|k: int| j <= k < s.len() ==> is_white_space(#[trigger] s[k]),
        j > 0 ==> !is_white_space(s[j - 1]),
    ensures
        trim_end(s) =~= s.take(j),
    decreases s.len() - j,
{
    if j < s.len() {
        assert(is_white_space(s.last()));
        let t = s.drop_last();
        assert forall|k: int| j <= k < t.len() implies is_white_space(#[trigger] t[k]) by {
            assert(t[k] == s[k]);
        }
        lemma_trim_end_take(t, j);
        assert(t.take(j) =~= s.take(j));
    }
}

/// The characters of `s` without leading and trailing white space.
pub fn trim_chars(s: &[char]) -> (r: Vec<char>)
    ensures
        r@ == trim(s@),
{
    let n = s.len();
    let mut i: usize = 0;
    while i < n && is_whitespace_char(s[i])
        invariant
            0 <= i <= n,
            n == s.len(),
            forall|k: int| 0 <= k < i ==> is_white_space(#[trigger] s@[k]),
        decreases n - i,
    {
        i += 1;
    }
    let mut j: usize = n;
    while j > i && is_whitespace_char(s[j - 1])
        invariant
            i <= j <= n,
            n == s.len(),
            forall|k: int| j <= k < n ==> is_white_space(#[trigger] s@[k]),
        decreases j - i,
    {
        j -= 1;
    }
    proof {
        lemma_trim_start_skip(s@, i as int);
        let t = s@.skip(i as int);
        assert forall|k: int| j - i <= k < t.len() implies is_white_space(#[trigger] t[k]) by {
            assert(t[k] == s@[k + i]);
        }
        if j > i {
            assert(t[j - i - 1] == s@[j - 1]);
        }
        lemma_trim_end_take(t, j - i);
    }
    let mut r: Vec<char> = Vec::new();
    let mut k: usize = i;
    while k < j
        invariant
            i <= k <= j <= n,
            n == s.len(),
            r@ =~= s@.subrange(i as int, k as int),
        decreases j - k,
    {
        r.push(s[k]);
        k += 1;
    }
    assert(s@.skip(i as int).take(j - i) =~= s@.subrange(i as int, j as int));
    r
}

/// The characters of `s` without leading white space.
pub fn trim_start_chars(s: &[char]) -> (r: Vec<char>)
    ensures
        r@ == trim_start(s@),
{
    let n = s.len();
    let mut i: usize = 0;
    while i < n && is_whitespace_char(s[i])
        invariant
            0 <= i <= n,
            n == s.len(),
            forall|k: int| 0 <= k < i ==> is_white_space(#[trigger] s@[k]),
        decreases n - i,
    {
        i += 1;
    }
    proof {
        lemma_trim_start_skip(s@, i as int);
    }
    let mut r: Vec<char> = Vec::new();
    let mut k: usize = i;
    while k < n
        invariant
            i <= k <= n,
            n == s.len(),
            r@ =~= s@.subrange(i as int, k as int),
        decreases n - k,
    {
        r.push(s[k]);
        k += 1;
    }
    r
}

/// The pieces of `s` between separators of class `kind`, empty ones included.
pub fn split_chars(s: &[char], kind: Separator) -> (r: Vec<Vec<char>>)
    ensures
        char_views(r@) == split_pieces(s@, kind),
{
    let mut done: Vec<Vec<char>> = Vec::new();
    let mut cur: Vec<char> = Vec::new();
    let mut i: usize = 0;
    while i < s.len()
        invariant
            0 <= i <= s.len(),
            char_views(done@) =~= split_state(s@.take(i as int), kind).0,
            cur@ =~= split_state(s@.take(i as int), kind).1,
        decreases s.len() - i,
    {
        let c = s[i];
        proof {
            assert(s@.take(i + 1).drop_last() =~= s@.take(i as int));
        }
        if is_separator_char(kind, c) {
            let finished = cur;
            done.push(finished);
            cur = Vec::new();
        } else {
            cur.push(c);
        }
        i += 1;
    }
    assert(s@.take(s.len() as int) =~= s@);
    let last = cur;
    done.push(last);
    done
}

/// The words of `s` (`str::split_whitespace`).
pub fn words_of(s: &[char]) -> (r: Vec<Vec<char>>)
    ensures
        char_views(r@) == words(s@),
{
    let mut done: Vec<Vec<char>> = Vec::new();
    let mut cur: Vec<char> = Vec::new();
    let mut i: usize = 0;
    while i < s.len()
        invariant
            0 <= i <= s.len(),
            char_views(done@) =~= non_empty(split_state(s@.take(i as int), Separator::Whitespace).0),
            cur@ =~= split_state(s@.take(i as int), Separator::Whitespace).1,
        decreases s.len() - i,
    {
        let c = s[i];
        proof {
            assert(s@.take(i + 1).drop_last() =~= s@.take(i as int));
            let st = split_state(s@.take(i as int), Separator::Whitespace);
            assert(st.0.push(st.1).drop_last() =~= st.0);
        }
        if is_whitespace_char(c) {
            if cur.len() > 0 {
                let finished = cur;
                done.push(finished);
            }
            cur = Vec::new();
        } else {
            cur.push(c);
        }
        i += 1;
    }
    assert(s@.take(s.len() as int) =~= s@);
    proof {
        let st = split_state(s@, Separator::Whitespace);
        assert(st.0.push(st.1).drop_last() =~= st.0);
    }
    if cur.len() > 0 {
        let last = cur;
        done.push(last);
    }
    done
}

/// The members of `ps` joined with `sep` between neighbours.
pub fn join_chars(ps: &Vec<Vec<char>>, sep: char) -> (r: Vec<char>)
    ensures
        r@ == join(char_views(ps@), sep),
{
    let mut r: Vec<char> = Vec::new();
    let mut i: usize = 0;
    while i < ps.len()
        invariant
            0 <= i <= ps.len(),
            r@ =~= join(char_views(ps@).take(i as int), sep),
        decreases ps.len() - i,
    {
        proof {
            let t = char_views(ps@).take(i + 1);
            assert(t.drop_last() =~= char_views(ps@).take(i as int));
        }
        if i > 0 {
            r.push(sep);
        }
        let mut k: usize = 0;
        let ghost before = r@;
        while k < ps[i].len()
            invariant
                0 <= k <= ps@[i as int]@.len(),
                i < ps.len(),
                r@ =~= before + ps@[i as int]@.take(k as int),
            decreases ps@[i as int]@.len() - k,
        {
            r.push(ps[i][k]);
            k += 1;
        }
        proof {
            assert(ps@[i as int]@.take(k as int) =~= ps@[i as int]@);
            if i == 0 {
                assert(char_views(ps@).take(1) =~= seq![ps@[0]@]);
            }
        }
        i += 1;
    }
    assert(char_views(ps@).take(ps.len() as int) =~= char_views(ps@));
    r
}

/// A text without a separator of class `kind` is one unfinished piece.
pub proof fn lemma_split_state_separator_free(s: Seq<char>, kind: Separator)
    requires
        forall|k: int| 0 <= k < s.len() ==> !is_separator(kind, #[trigger] s[k]),
    ensures
        split_state(s, kind) == (Seq::<Seq<char>>::empty(), s),
    decreases s.len(),
{
    if s.len() > 0 {
        let init = s.drop_last();
        assert forall|k: int| 0 <= k < init.len() implies !is_separator(kind, #[trigger] init[k]) by {
            assert(init[k] == s[k]);
        }
        lemma_split_state_separator_free(init, kind);
        assert(init.push(s.last()) =~= s);
    }
}

/// Splitting continues after a finished piece as if it started afresh.
proof fn lemma_split_state_continues(x: Seq<char>, t: Seq<char>, kind: Separator)
    requires
        split_state(x, kind).1.len() == 0,
    ensures
        split_state(x + t, kind) == (
            split_state(x, kind).0 + split_state(t, kind).0,
            split_state(t, kind).1,
        ),
    decreases t.len(),
{
    if t.len() == 0 {
        assert(x + t =~= x);
        assert(split_state(x, kind).1 =~= Seq::<char>::empty());
        assert(split_state(x, kind).0 + Seq::<Seq<char>>::empty() =~= split_state(x, kind).0);
    } else {
        let init = t.drop_last();
        lemma_split_state_continues(x, init, kind);
        assert((x + t).drop_last() =~= x + init);
        assert((x + t).last() == t.last());
        let (d, cur) = split_state(init, kind);
        assert((split_state(x, kind).0 + d).push(cur) =~= split_state(x, kind).0 + d.push(cur));
    }
}

/// Splitting a text joined at a separator splits its two parts.
pub proof fn lemma_split_pieces_concat(s1: Seq<char>, c: char, s2: Seq<char>, kind: Separator)
    requires
        is_separator(kind, c),
    ensures
        split_pieces(s1 + seq![c] + s2, kind) == split_pieces(s1, kind) + split_pieces(s2, kind),
{
    let x = s1 + seq![c];
    assert(x.drop_last() =~= s1);
    assert(x.last() == c);
    lemma_split_state_continues(x, s2, kind);
    assert(x + s2 =~= s1 + seq![c] + s2);
    let (d1, c1) = split_state(s1, kind);
    let (d2, c2) = split_state(s2, kind);
    assert((d1.push(c1) + d2).push(c2) =~= d1.push(c1) + d2.push(c2));
}

/// Dropping empty pieces distributes over concatenation.
pub proof fn lemma_non_empty_concat(a: Seq<Seq<char>>, b: Seq<Seq<char>>)
    ensures
        non_empty(a + b) == non_empty(a) + non_empty(b),
    decreases b.len(),
{
    if b.len() == 0 {
        assert(a + b =~= a);
        assert(non_empty(a) + non_empty(b) =~= non_empty(a));
    } else {
        lemma_non_empty_concat(a, b.drop_last());
        assert((a + b).drop_last() =~= a + b.drop_last());
        assert((a + b).last() == b.last());
        if b.last().len() > 0 {
            assert((non_empty(a) + non_empty(b.drop_last())).push(b.last()) =~= non_empty(a) + non_empty(
                b.drop_last(),
            ).push(b.last()));
        }
    }
}

/// The words of a text joined at a white-space character are the words of
/// its two parts.
pub proof fn lemma_words_concat(s1: Seq<char>, c: char, s2: Seq<char>)
    requires
        is_white_space(c),
    ensures
        words(s1 + seq![c] + s2) == words(s1) + words(s2),
{
    lemma_split_pieces_concat(s1, c, s2, Separator::Whitespace);
    lemma_non_empty_concat(
        split_pieces(s1, Separator::Whitespace),
        split_pieces(s2, Separator::Whitespace),
    );
}

/// The empty text has no words.
pub proof fn lemma_words_empty()
    ensures
        words(Seq::<char>::empty()) == Seq::<Seq<char>>::empty(),
{
    let e = Seq::<char>::empty();
    let ps = split_pieces(e, Separator::Whitespace);
    assert(ps =~= seq![e]);
    assert(ps.drop_last() =~= Seq::<Seq<char>>::empty());
    assert(non_empty(Seq::<Seq<char>>::empty()) =~= Seq::<Seq<char>>::empty());
    assert(non_empty(ps) == non_empty(ps.drop_last()));
}

/// A non-empty word: no white space in it.
pub open spec fn is_word(w: Seq<char>) -> bool {
    w.len() > 0 && forall|k: int| 0 <= k < w.len() ==> !is_white_space(#[trigger] w[k])
}

/// A single word is its own only word.
pub proof fn lemma_words_single(w: Seq<char>)
    requires
        is_word(w),
    ensures
        words(w) == seq![w],
{
    lemma_split_state_separator_free(w, Separator::Whitespace);
    let ps = split_pieces(w, Separator::Whitespace);
    assert(ps =~= seq![w]);
    assert(ps.drop_last() =~= Seq::<Seq<char>>::empty());
    assert(non_empty(Seq::<Seq<char>>::empty()) =~= Seq::<Seq<char>>::empty());
    assert(non_empty(ps) == non_empty(ps.drop_last()).push(w));
    assert(Seq::<Seq<char>>::empty().push(w) =~= seq![w]);
}

/// Joining words with spaces and splitting the result at white space gives
/// the words back.
pub proof fn lemma_words_join(ws: Seq<Seq<char>>)
    requires
        forall|i: int| 0 <= i < ws.len() ==> is_word(#[trigger] ws[i]),
    ensures
        words(join(ws, ' ')) == ws,
    decreases ws.len(),
{
    if ws.len() == 0 {
        lemma_words_empty();
    } else if ws.len() == 1 {
        lemma_words_single(ws[0]);
        assert(seq![ws[0]] =~= ws);
    } else {
        let init = ws.drop_last();
        assert forall|i: int| 0 <= i < init.len() implies is_word(#[trigger] init[i]) by {
            assert(init[i] == ws[i]);
        }
        lemma_words_join(init);
        lemma_words_single(ws.last());
        lemma_words_concat(join(init, ' '), ' ', ws.last());
        assert(join(init, ' ').push(' ') + ws.last() =~= join(init, ' ') + seq![' '] + ws.last());
        assert(init + seq![ws.last()] =~= ws);
    }
}

/// Trimming a text keeps its words.
pub proof fn lemma_words_trim(s: Seq<char>)
    ensures
        words(trim(s)) == words(s),
{
    lemma_words_trim_start(s);
    lemma_words_trim_end(trim_start(s));
}

proof fn lemma_words_trim_start(s: Seq<char>)
    ensures
        words(trim_start(s)) == words(s),
    decreases s.len(),
{
    if s.len() > 0 && is_white_space(s[0]) {
        lemma_words_trim_start(s.drop_first());
        lemma_words_concat(Seq::empty(), s[0], s.drop_first());
        lemma_words_empty();
        assert(Seq::<char>::empty() + seq![s[0]] + s.drop_first() =~= s);
        assert(Seq::<Seq<char>>::empty() + words(s.drop_first()) =~= words(s.drop_first()));
    }
}

proof fn lemma_words_trim_end(s: Seq<char>)
    ensures
        words(trim_end(s)) == words(s),
    decreases s.len(),
{
    if s.len() > 0 && is_white_space(s.last()) {
        lemma_words_trim_end(s.drop_last());
        lemma_words_concat(s.drop_last(), s.last(), Seq::empty());
        lemma_words_empty();
        assert(s.drop_last() + seq![s.last()] + Seq::<char>::empty() =~= s);
        assert(words(s.drop_last()) + Seq::<Seq<char>>::empty() =~= words(s.drop_last()));
    }
}

} // verus!
