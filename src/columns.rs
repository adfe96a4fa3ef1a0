//! Display width of characters and strings, in terminal columns.

use unicode_width::UnicodeWidthChar;
use vstd::prelude::*;

verus! {

/// What `UnicodeWidthChar::width` returns for a character.
pub uninterp spec fn unicode_char_width(c: char) -> Option<usize>;

/// Relies on `unicode_width::UnicodeWidthChar::width` (version 0.1): the
/// columns one character occupies, `None` for a control character.
/// Its source answers ASCII by hand: `None` below U+0020 and from U+007F up
/// to U+00A0, `Some(1)` for U+0020 to U+007E; above that it reads a table
/// whose entries are at most 3.
#[verifier::external_body]
fn char_width(c: char) -> (r: Option<usize>)
    ensures
        r == unicode_char_width(c),
        r is None <==> (c < '\u{20}' || ('\u{7F}' <= c && c < '\u{A0}')),
        ('\u{20}' <= c && c < '\u{7F}') ==> r == Some(1usize),
        r matches Some(w) ==> w <= 3,
{
    UnicodeWidthChar::width(c)
}

/// Columns of one character: its Unicode width, a control character taking none.
pub open spec fn char_columns(c: char) -> nat {
    match unicode_char_width(c) {
        Some(w) => w as nat,
        None => 0,
    }
}

/// Columns of a sequence of characters: the sum of the columns of each.
pub open spec fn text_columns(s: Seq<char>) -> nat
    decreases s.len(),
{
    if s.len() == 0 {
        0
    } else {
        text_columns(s.drop_last()) + char_columns(s.last())
    }
}

/// Appending one character adds its columns.
pub proof fn lemma_text_columns_push(s: Seq<char>, c: char)
    ensures
        text_columns(s.push(c)) == text_columns(s) + char_columns(c),
{
    assert(s.push(c).drop_last() =~= s);
}

/// A prefix never takes more columns than the whole.
pub proof fn lemma_text_columns_prefix(s: Seq<char>, i: int)
    requires
        0 <= i <= s.len(),
    ensures
        text_columns(s.take(i)) <= text_columns(s),
    decreases s.len() - i,
{
    if i < s.len() {
        lemma_text_columns_prefix(s, i + 1);
        assert(s.take(i + 1).drop_last() =~= s.take(i));
    } else {
        assert(s.take(i) =~= s);
    }
}

/// Columns of a concatenation are the sum of the columns of its parts.
pub proof fn lemma_text_columns_concat(a: Seq<char>, b: Seq<char>)
    ensures
        text_columns(a + b) == text_columns(a) + text_columns(b),
    decreases b.len(),
{
    if b.len() == 0 {
        assert(a + b =~= a);
    } else {
        lemma_text_columns_concat(a, b.drop_last());
        assert((a + b).drop_last() =~= a + b.drop_last());
    }
}

/// Columns of a string, under the bound that makes them fit in `usize`.
pub(crate) fn str_columns(s: &str) -> (r: usize)
    requires
        text_columns(s@) <= usize::MAX,
    ensures
        r == text_columns(s@),
{
    let mut total: usize = 0;
    for c in it: s.chars()
        invariant
            it.seq() == s@,
            total == text_columns(s@.take(it.index() as int)),
            text_columns(s@) <= usize::MAX,
    {
        let ghost i = it.index() as int;
        proof {
            assert(s@.take(i + 1) =~= s@.take(i).push(c));
            lemma_text_columns_push(s@.take(i), c);
            lemma_text_columns_prefix(s@, i + 1);
        }
        match char_width(c) {
            Some(w) => {
                total = total + w;
            },
            None => {},
        }
    }
    proof {
        assert(s@.take(s@.len() as int) =~= s@);
    }
    total
}

/// Columns of a string, or `None` where they do not fit in `usize`.
pub(crate) fn checked_str_columns(s: &str) -> (r: Option<usize>)
    ensures
        r == (if text_columns(s@) <= usize::MAX {
            Some(text_columns(s@) as usize)
        } else {
            None::<usize>
        }),
{
    let mut total: usize = 0;
    for c in it: s.chars()
        invariant
            it.seq() == s@,
            total == text_columns(s@.take(it.index() as int)),
    {
        let ghost i = it.index() as int;
        proof {
            assert(s@.take(i + 1) =~= s@.take(i).push(c));
            lemma_text_columns_push(s@.take(i), c);
        }
        match char_width(c) {
            Some(w) => {
                match total.checked_add(w) {
                    Some(t) => {
                        total = t;
                    },
                    None => {
                        proof {
                            lemma_text_columns_prefix(s@, i + 1);
                        }
                        return None;
                    },
                }
            },
            None => {},
        }
    }
    proof {
        assert(s@.take(s@.len() as int) =~= s@);
    }
    Some(total)
}

} // verus!
