//! Character classes and UTF-8 byte lengths.
//!
//! The text of the application is handled as sequences of `char`, while
//! positions that come from an editor (cursor, ranges) are byte offsets into
//! the UTF-8 encoding. This module states both views and how they relate.
use vstd::prelude::*;
use vstd::utf8::*;

verus! {

/// The Unicode `White_Space` property, which is what `char::is_whitespace`
/// tests and what `str::trim` and `str::split_whitespace` split on.
pub open spec fn is_white_space(c: char) -> bool {
    let u = c as u32;
    ||| 0x9 <= u <= 0xd
    ||| u == 0x20
    ||| u == 0x85
    ||| u == 0xa0
    ||| u == 0x1680
    ||| 0x2000 <= u <= 0x200a
    ||| u == 0x2028
    ||| u == 0x2029
    ||| u == 0x202f
    ||| u == 0x205f
    ||| u == 0x3000
}

/// Whether `c` carries the Unicode `White_Space` property.
pub fn is_whitespace_char(c: char) -> (r: bool)
    ensures
        r == is_white_space(c),
{
    let u = c as u32;
    (0x9 <= u && u <= 0xd) || u == 0x20 || u == 0x85 || u == 0xa0 || u == 0x1680 || (0x2000 <= u
        && u <= 0x200a) || u == 0x2028 || u == 0x2029 || u == 0x202f || u == 0x205f || u == 0x3000
}

/// ASCII letters and digits.
pub open spec fn is_ascii_alphanumeric(c: char) -> bool {
    let u = c as u32;
    ||| 0x30 <= u <= 0x39
    ||| 0x41 <= u <= 0x5a
    ||| 0x61 <= u <= 0x7a
}

/// Whether `c` is an ASCII letter or digit.
pub fn is_ascii_alphanumeric_char(c: char) -> (r: bool)
    ensures
        r == is_ascii_alphanumeric(c),
{
    let u = c as u32;
    (0x30 <= u && u <= 0x39) || (0x41 <= u && u <= 0x5a) || (0x61 <= u && u <= 0x7a)
}

/// Number of bytes of the UTF-8 encoding of `c`.
pub open spec fn utf8_width(c: char) -> nat {
    let u = c as u32;
    if u < 0x80 {
        1
    } else if u < 0x800 {
        2
    } else if u < 0x10000 {
        3
    } else {
        4
    }
}

/// Number of bytes of the UTF-8 encoding of `c` (what `char::len_utf8` returns).
pub fn utf8_width_of(c: char) -> (w: usize)
    ensures
        w == utf8_width(c),
        1 <= w <= 4,
{
    let u = c as u32;
    if u < 0x80 {
        1
    } else if u < 0x800 {
        2
    } else if u < 0x10000 {
        3
    } else {
        4
    }
}

/// Number of bytes of the UTF-8 encoding of a character sequence.
pub open spec fn byte_len(s: Seq<char>) -> nat
    decreases s.len(),
{
    if s.len() == 0 {
        0
    } else {
        utf8_width(s[0]) + byte_len(s.drop_first())
    }
}

/// The width of a character is the length of its encoding.
pub proof fn lemma_width_is_encoding_len(c: char)
    ensures
        encode_scalar(c as u32).len() == utf8_width(c),
{
    char_is_scalar(c);
}

/// `byte_len` is the length of the UTF-8 encoding, i.e. what `str::len` returns.
pub proof fn lemma_byte_len_is_encoding_len(s: Seq<char>)
    ensures
        byte_len(s) == encode_utf8(s).len(),
    decreases s.len(),
{
    if s.len() > 0 {
        lemma_width_is_encoding_len(s[0]);
        lemma_byte_len_is_encoding_len(s.drop_first());
    }
}

/// Byte length is additive over concatenation.
pub proof fn lemma_byte_len_add(a: Seq<char>, b: Seq<char>)
    ensures
        byte_len(a + b) == byte_len(a) + byte_len(b),
    decreases a.len(),
{
    if a.len() > 0 {
        assert((a + b).drop_first() =~= a.drop_first() + b);
        lemma_byte_len_add(a.drop_first(), b);
    } else {
        assert(a + b =~= b);
    }
}

/// Byte length of a single character.
pub proof fn lemma_byte_len_single(c: char)
    ensures
        byte_len(seq![c]) == utf8_width(c),
{
    assert(seq![c].drop_first() =~= Seq::<char>::empty());
    assert(byte_len(Seq::<char>::empty()) == 0);
}

/// Extending a prefix by one character adds that character's width.
pub proof fn lemma_byte_len_take_succ(s: Seq<char>, k: int)
    requires
        0 <= k < s.len(),
    ensures
        byte_len(s.take(k + 1)) == byte_len(s.take(k)) + utf8_width(s[k]),
{
    assert(s.take(k + 1) =~= s.take(k) + seq![s[k]]);
    lemma_byte_len_add(s.take(k), seq![s[k]]);
    lemma_byte_len_single(s[k]);
}

/// A longer prefix never has fewer bytes.
pub proof fn lemma_byte_len_take_mono(s: Seq<char>, j: int, k: int)
    requires
        0 <= j <= k <= s.len(),
    ensures
        byte_len(s.take(j)) <= byte_len(s.take(k)),
    decreases k - j,
{
    if j < k {
        lemma_byte_len_take_succ(s, k - 1);
        lemma_byte_len_take_mono(s, j, k - 1);
    }
}

/// A prefix never has more bytes than the whole sequence.
pub proof fn lemma_byte_len_take_le(s: Seq<char>, k: int)
    requires
        0 <= k <= s.len(),
    ensures
        byte_len(s.take(k)) <= byte_len(s),
{
    assert(s.take(s.len() as int) =~= s);
    lemma_byte_len_take_mono(s, k, s.len() as int);
}

/// Strictly longer prefixes have strictly more bytes.
pub proof fn lemma_byte_len_take_strict(s: Seq<char>, j: int, k: int)
    requires
        0 <= j < k <= s.len(),
    ensures
        byte_len(s.take(j)) < byte_len(s.take(k)),
{
    lemma_byte_len_take_succ(s, j);
    lemma_byte_len_take_mono(s, j + 1, k);
}

/// Number of bytes of the UTF-8 encoding of `text` (`str::len`).
pub fn text_byte_len(text: &str) -> (n: usize)
    ensures
        n == byte_len(text@),
{
    let bytes = text.as_bytes();
    proof {
        lemma_byte_len_is_encoding_len(text@);
    }
    bytes.len()
}

/// The byte offset at which each character of `t` starts, followed by the
/// byte length of `t`: entry `k` is the byte length of the first `k` characters.
pub fn prefix_byte_offsets(t: &[char], total: usize) -> (offs: Vec<usize>)
    requires
        byte_len(t@) == total,
    ensures
        offs.len() == t.len() + 1,
        forall|k: int| 0 <= k <= t.len() ==> #[trigger] offs@[k] == byte_len(t@.take(k)),
{
    let mut offs: Vec<usize> = Vec::new();
    offs.push(0);
    assert(t@.take(0) =~= Seq::<char>::empty());
    let mut acc: usize = 0;
    let mut i: usize = 0;
    while i < t.len()
        invariant
            0 <= i <= t.len(),
            byte_len(t@) == total,
            offs.len() == i + 1,
            acc == byte_len(t@.take(i as int)),
            forall|k: int| 0 <= k <= i ==> #[trigger] offs@[k] == byte_len(t@.take(k)),
        decreases t.len() - i,
    {
        proof {
            lemma_byte_len_take_succ(t@, i as int);
            lemma_byte_len_take_le(t@, i + 1);
        }
        acc = acc + utf8_width_of(t[i]);
        offs.push(acc);
        i += 1;
    }
    offs
}

/// Only the empty sequence has no bytes.
pub proof fn lemma_byte_len_empty(s: Seq<char>)
    ensures
        (byte_len(s) == 0) == (s.len() == 0),
{
}

} // verus!
