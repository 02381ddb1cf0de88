//! Whitespace, tokens and lexicographic order on text, stated over sequences
//! of characters.

use vstd::prelude::*;
use vstd::string::*;
use crate::order::{consistent, Rank};

verus! {

/// Whether `c` has the Unicode `White_Space` property.
pub open spec fn is_space(c: char) -> bool {
    let n = c as int;
    ||| 0x09 <= n <= 0x0D
    ||| n == 0x20
    ||| n == 0x85
    ||| n == 0xA0
    ||| n == 0x1680
    ||| 0x2000 <= n <= 0x200A
    ||| n == 0x2028
    ||| n == 0x2029
    ||| n == 0x202F
    ||| n == 0x205F
    ||| n == 0x3000
}

/// Decides `is_space` for one character.
pub fn char_is_space(c: char) -> (b: bool)
    ensures
        b == is_space(c),
{
    let n: u32 = c as u32;
    (0x09 <= n && n <= 0x0D) || n == 0x20 || n == 0x85 || n == 0xA0 || n == 0x1680 || (0x2000 <= n
        && n <= 0x200A) || n == 0x2028 || n == 0x2029 || n == 0x202F || n == 0x205F || n == 0x3000
}

/// The first position at or after `from` that holds no whitespace, or the
/// length of `s` if there is none.
pub open spec fn word_start(s: Seq<char>, from: int) -> int
    decreases s.len() - from,
{
    if 0 <= from < s.len() && is_space(s[from]) {
        word_start(s, from + 1)
    } else {
        from
    }
}

/// The first position at or after `from` that holds whitespace, or the length
/// of `s` if there is none.
pub open spec fn word_end(s: Seq<char>, from: int) -> int
    decreases s.len() - from,
{
    if 0 <= from < s.len() && !is_space(s[from]) {
        word_end(s, from + 1)
    } else {
        from
    }
}

/// The first whitespace-delimited token of `s`; empty when `s` holds nothing
/// but whitespace.
pub open spec fn first_token(s: Seq<char>) -> Seq<char> {
    s.subrange(word_start(s, 0), word_end(s, word_start(s, 0)))
}

/// Extracts the first whitespace-delimited token of `text`.
pub fn first_token_of(text: &str) -> (token: String)
    ensures
        token@ == first_token(text@),
{
    let n: usize = text.unicode_len();
    let mut start: usize = 0;
    while start < n && char_is_space(text.get_char(start))
        invariant
            start <= n,
            n == text@.len(),
            word_start(text@, start as int) == word_start(text@, 0),
        decreases n - start,
    {
        start += 1;
    }
    let mut end: usize = start;
    while end < n && !char_is_space(text.get_char(end))
        invariant
            start <= end <= n,
            n == text@.len(),
            word_end(text@, end as int) == word_end(text@, start as int),
        decreases n - end,
    {
        end += 1;
    }
    String::from_str(text.substring_char(start, end))
}

/// Decides whether two texts hold the same characters.
pub fn same_text(a: &str, b: &str) -> (r: bool)
    ensures
        r == (a@ == b@),
{
    let x: String = String::from_str(a);
    let y: String = String::from_str(b);
    x == y
}

/// Decides whether `text` begins with `prefix`.
pub fn starts_with(text: &str, prefix: &str) -> (b: bool)
    ensures
        b == prefix@.is_prefix_of(text@),
{
    let n: usize = text.unicode_len();
    let m: usize = prefix.unicode_len();
    if m > n {
        return false;
    }
    let mut i: usize = 0;
    while i < m
        invariant
            i <= m <= n,
            n == text@.len(),
            m == prefix@.len(),
            forall|j: int| 0 <= j < i ==> text@[j] == prefix@[j],
        decreases m - i,
    {
        if text.get_char(i) != prefix.get_char(i) {
            assert(text@.subrange(0, m as int)[i as int] != prefix@[i as int]);
            return false;
        }
        i += 1;
    }
    assert(text@.subrange(0, m as int) =~= prefix@);
    true
}

/// The first `limit` characters of `s`, or all of `s` if it is shorter.
pub open spec fn excerpt(s: Seq<char>, limit: nat) -> Seq<char> {
    if s.len() <= limit {
        s
    } else {
        s.take(limit as int)
    }
}

/// Cuts `text` down to its first `limit` characters.
pub fn excerpt_of(text: &str, limit: usize) -> (cut: String)
    ensures
        cut@ == excerpt(text@, limit as nat),
{
    let n: usize = text.unicode_len();
    if n <= limit {
        String::from_str(text)
    } else {
        String::from_str(text.substring_char(0, limit))
    }
}

/// Lexicographic comparison of two texts by the code points of their
/// characters; a proper prefix sorts before the longer text.
pub open spec fn text_rank(a: Seq<char>, b: Seq<char>) -> Rank
    decreases a.len(),
{
    if a.len() == 0 && b.len() == 0 {
        Rank::Same
    } else if a.len() == 0 {
        Rank::Before
    } else if b.len() == 0 {
        Rank::After
    } else if (a[0] as int) < (b[0] as int) {
        Rank::Before
    } else if (a[0] as int) > (b[0] as int) {
        Rank::After
    } else {
        text_rank(a.drop_first(), b.drop_first())
    }
}

/// Exchanging the arguments of `text_rank` flips its outcome.
pub proof fn lemma_text_rank_flip(a: Seq<char>, b: Seq<char>)
    ensures
        text_rank(b, a) == text_rank(a, b).flip(),
    decreases a.len(),
{
    if a.len() > 0 && b.len() > 0 && a[0] == b[0] {
        lemma_text_rank_flip(a.drop_first(), b.drop_first());
    }
}

/// Two texts tie exactly when they are the same text.
pub proof fn lemma_text_rank_same(a: Seq<char>, b: Seq<char>)
    ensures
        text_rank(a, b) == Rank::Same <==> a == b,
    decreases a.len(),
{
    if a.len() > 0 && b.len() > 0 {
        if a[0] == b[0] {
            lemma_text_rank_same(a.drop_first(), b.drop_first());
            if a.drop_first() == b.drop_first() {
                assert(a =~= seq![a[0]] + a.drop_first());
                assert(b =~= seq![b[0]] + b.drop_first());
            }
        }
    } else if a.len() == 0 && b.len() == 0 {
        assert(a =~= b);
    }
}

/// `text_rank` is transitive in its strict part.
pub proof fn lemma_text_rank_transitive(a: Seq<char>, b: Seq<char>, c: Seq<char>)
    requires
        text_rank(a, b) == Rank::Before,
        text_rank(b, c) == Rank::Before,
    ensures
        text_rank(a, c) == Rank::Before,
    decreases a.len(),
{
    if a.len() > 0 && b.len() > 0 && c.len() > 0 {
        if a[0] == b[0] && b[0] == c[0] {
            lemma_text_rank_transitive(a.drop_first(), b.drop_first(), c.drop_first());
        }
    }
}

/// The lexicographic order of texts is a total preorder.
pub proof fn lemma_text_rank_consistent(a: Seq<char>, b: Seq<char>, c: Seq<char>)
    ensures
        consistent(text_rank(a, b), text_rank(b, c), text_rank(a, c)),
{
    lemma_text_rank_same(a, b);
    lemma_text_rank_same(b, c);
    lemma_text_rank_flip(a, b);
    lemma_text_rank_flip(b, c);
    lemma_text_rank_flip(a, c);
    if text_rank(a, b) == Rank::Before && text_rank(b, c) == Rank::Before {
        lemma_text_rank_transitive(a, b, c);
    }
    if text_rank(a, b) == Rank::After && text_rank(b, c) == Rank::After {
        lemma_text_rank_transitive(c, b, a);
    }
}

/// Compares two texts lexicographically.
pub fn rank_texts(a: &str, b: &str) -> (r: Rank)
    ensures
        r == text_rank(a@, b@),
{
    let n: usize = a.unicode_len();
    let m: usize = b.unicode_len();
    let mut i: usize = 0;
    assert(a@.skip(0) =~= a@ && b@.skip(0) =~= b@);
    while i < n && i < m
        invariant
            i <= n,
            i <= m,
            n == a@.len(),
            m == b@.len(),
            text_rank(a@, b@) == text_rank(a@.skip(i as int), b@.skip(i as int)),
        decreases n - i,
    {
        let x: u32 = a.get_char(i) as u32;
        let y: u32 = b.get_char(i) as u32;
        assert(a@.skip(i as int)[0] == a@[i as int]);
        assert(b@.skip(i as int)[0] == b@[i as int]);
        if x < y {
            return Rank::Before;
        }
        if x > y {
            return Rank::After;
        }
        assert(a@.skip(i as int).drop_first() =~= a@.skip(i + 1));
        assert(b@.skip(i as int).drop_first() =~= b@.skip(i + 1));
        i += 1;
    }
    if i < m {
        Rank::Before
    } else if i < n {
        Rank::After
    } else {
        Rank::Same
    }
}

} // verus!
