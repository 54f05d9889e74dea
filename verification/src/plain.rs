//! Which texts are handed to the host grammar.
//!
//! `syn` reads a type, a pattern, a parameter, generic parameters or a
//! `where` clause from any text but one kind.  After bound lifetimes, as in
//! `for<'a>`, its type parser takes `dyn` for the start of a trait object,
//! and where the first bound of that is a lifetime, as in
//! `for<'a> dyn 'b + T`, it stops the program.  A text that can be read so is
//! not plain, and is not handed over.  A trait object that starts with a
//! lifetime and comes after anything else, as in `&'a dyn 'b + T`,
//! `Box<dyn 'b + T>` or `-> dyn 'b + T`, is read.
//!
//! The condition is on the characters of the text, whatever tokens it was
//! written from.  So it has to reckon with what may stand between two tokens
//! and is no blank: other white space, and comments.  Of these it only knows
//! that they start and end with a character that is hidden here.

use vstd::prelude::*;
use vstd::string::*;

verus! {

/// Whether a character may hide the border between two tokens: a `/`, with
/// which a comment starts and ends; a control character of ASCII, as a tab or
/// a line end is; or a character from one of the ranges in which white space
/// outside of ASCII and the marks of the writing direction lie.
///
/// `proc_macro2` passes over comments, over what `char::is_whitespace` holds
/// for white space, and over the marks U+200E and U+200F.  All of these start
/// and end with a character that is hidden here.
pub open spec fn hidden(c: char) -> bool {
    ||| c == '/'
    ||| c < ' '
    ||| '\u{80}' <= c <= '\u{a0}'
    ||| c == '\u{1680}'
    ||| c == '\u{180e}'
    ||| '\u{2000}' <= c <= '\u{206f}'
    ||| c == '\u{3000}'
    ||| c == '\u{feff}'
}

/// Whether the character at `j` may be the end of bound lifetimes: a hidden
/// character, or a `>` that something other than a `-` stands before.  With
/// nothing before it a `>` closes nothing.  With a `-` before it, it follows
/// the token `-`, and bound lifetimes do not end so: before their closing
/// `>` stands their opening `<`, a lifetime, a colon, a `+` or a comma.
pub open spec fn may_close_bounds(text: Seq<char>, j: int) -> bool {
    hidden(text[j]) || (text[j] == '>' && j > 0 && text[j - 1] != '-')
}

/// Whether a character after a `dyn` may be the start of a lifetime: an
/// apostrophe, or a hidden character.
pub open spec fn may_open_lifetime(c: char) -> bool {
    c == '\'' || hidden(c)
}

/// Whether `dyn` is written at `i`.
pub open spec fn dyn_at(text: Seq<char>, i: int) -> bool {
    &&& 0 <= i
    &&& i + 3 <= text.len()
    &&& text[i] == 'd'
    &&& text[i + 1] == 'y'
    &&& text[i + 2] == 'n'
}

/// Whether the character at `j` is the last before `i` that is no blank, and
/// may close bound lifetimes.
pub open spec fn bounds_end_at(text: Seq<char>, j: int, i: int) -> bool {
    &&& 0 <= j < i <= text.len()
    &&& may_close_bounds(text, j)
    &&& forall|k: int| j < k < i ==> text[k] == ' '
}

/// Whether the character at `k` is the first after the three at `i` that is
/// no blank, and may open a lifetime.
pub open spec fn lifetime_starts_at(text: Seq<char>, i: int, k: int) -> bool {
    &&& 0 <= i
    &&& i + 3 <= k < text.len()
    &&& may_open_lifetime(text[k])
    &&& forall|m: int| i + 3 <= m < k ==> text[m] == ' '
}

/// Whether the text may read, at `i`, as bound lifetimes, `dyn` and a
/// lifetime: `dyn` is written at `i`, what stands before it may close bound
/// lifetimes, and what stands after it may open a lifetime.
pub open spec fn stops_at(text: Seq<char>, i: int) -> bool {
    &&& dyn_at(text, i)
    &&& exists|j: int| bounds_end_at(text, j, i)
    &&& exists|k: int| lifetime_starts_at(text, i, k)
}

/// Whether a text is plain, so that it is handed to the host grammar: it
/// reads nowhere as bound lifetimes, `dyn` and a lifetime.
pub open spec fn plain(text: Seq<char>) -> bool {
    forall|i: int| !stops_at(text, i)
}

/// A part of a plain text is plain.
pub proof fn lemma_part_of_plain(before: Seq<char>, part: Seq<char>, after: Seq<char>)
    requires
        plain(before + part + after),
    ensures
        plain(part),
{
    let whole = before + part + after;
    let n = before.len() as int;
    assert forall|i: int| !stops_at(part, i) by {
        if stops_at(part, i) {
            let j = choose|j: int| bounds_end_at(part, j, i);
            let k = choose|k: int| lifetime_starts_at(part, i, k);
            assert forall|m: int| 0 <= m < part.len() implies whole[m + n] == part[m] by {}
            assert(dyn_at(whole, i + n));
            assert(bounds_end_at(whole, j + n, i + n)) by {
                assert forall|q: int| j + n < q < i + n implies whole[q] == ' ' by {
                    assert(whole[q] == part[q - n]);
                }
                assert(whole[j + n] == part[j]);
                if j > 0 {
                    assert(whole[j - 1 + n] == part[j - 1]);
                }
            }
            assert(lifetime_starts_at(whole, i + n, k + n)) by {
                assert forall|q: int| i + n + 3 <= q < k + n implies whole[q] == ' ' by {
                    assert(whole[q] == part[q - n]);
                }
            }
            assert(stops_at(whole, i + n));
        }
    }
}

/// The character at `i`.
fn char_at(text: &str, ascii: bool, i: usize) -> (c: char)
    requires
        ascii ==> text.is_ascii(),
        i < text@.len(),
    ensures
        c == text@[i as int],
{
    if ascii {
        let b: u8 = text.get_ascii(i);
        b as char
    } else {
        text.get_char(i)
    }
}

/// Whether a character may hide the border between two tokens.
fn is_hidden(c: char) -> (r: bool)
    ensures
        r == hidden(c),
{
    c == '/' || c < ' ' || ('\u{80}' <= c && c <= '\u{a0}') || c == '\u{1680}' || c == '\u{180e}'
        || ('\u{2000}' <= c && c <= '\u{206f}') || c == '\u{3000}' || c == '\u{feff}'
}

/// Whether what stands before `i` may close bound lifetimes.
fn check_before(text: &str, ascii: bool, i: usize) -> (r: bool)
    requires
        ascii ==> text.is_ascii(),
        i <= text@.len(),
    ensures
        r == exists|j: int| bounds_end_at(text@, j, i as int),
{
    let ghost t = text@;
    let mut j: usize = i;
    while j > 0 && char_at(text, ascii, j - 1) == ' '
        invariant
            j <= i <= t.len(),
            t == text@,
            ascii ==> text.is_ascii(),
            forall|k: int| j <= k < i ==> t[k] == ' ',
        decreases j,
    {
        j = j - 1;
    }
    if j == 0 {
        proof {
            assert forall|w: int| !bounds_end_at(t, w, i as int) by {
                if bounds_end_at(t, w, i as int) {
                    assert(t[w] == ' ');
                }
            }
        }
        return false;
    }
    let c = char_at(text, ascii, j - 1);
    let r = is_hidden(c) || (c == '>' && j > 1 && char_at(text, ascii, j - 2) != '-');
    proof {
        if r {
            assert(bounds_end_at(t, j - 1, i as int));
        } else {
            assert forall|w: int| !bounds_end_at(t, w, i as int) by {
                if bounds_end_at(t, w, i as int) {
                    if w >= j {
                        assert(t[w] == ' ');
                    } else if w < j - 1 {
                        assert(t[j - 1] == ' ');
                    }
                }
            }
        }
    }
    r
}

/// Whether what stands after the three characters at `i` may open a
/// lifetime.
fn check_after(text: &str, ascii: bool, n: usize, i: usize) -> (r: bool)
    requires
        ascii ==> text.is_ascii(),
        i + 3 <= n == text@.len(),
    ensures
        r == exists|k: int| lifetime_starts_at(text@, i as int, k),
{
    let ghost t = text@;
    let mut k: usize = i + 3;
    while k < n && char_at(text, ascii, k) == ' '
        invariant
            i + 3 <= k <= n == t.len(),
            t == text@,
            ascii ==> text.is_ascii(),
            forall|m: int| i + 3 <= m < k ==> t[m] == ' ',
        decreases n - k,
    {
        k = k + 1;
    }
    if k == n {
        proof {
            assert forall|w: int| !lifetime_starts_at(t, i as int, w) by {
                if lifetime_starts_at(t, i as int, w) {
                    assert(t[w] == ' ');
                }
            }
        }
        return false;
    }
    let c = char_at(text, ascii, k);
    let r = c == '\'' || is_hidden(c);
    proof {
        if r {
            assert(lifetime_starts_at(t, i as int, k as int));
        } else {
            assert forall|w: int| !lifetime_starts_at(t, i as int, w) by {
                if lifetime_starts_at(t, i as int, w) {
                    if w < k {
                        assert(t[w] == ' ');
                    } else if w > k {
                        assert(t[k as int] == ' ');
                    }
                }
            }
        }
    }
    r
}

/// Whether a text is plain.
pub fn is_plain(text: &str) -> (r: bool)
    ensures
        r == plain(text@),
{
    let ghost t = text@;
    let ascii = text.is_ascii();
    let n: usize = text.unicode_len();
    let mut i: usize = 0;
    while i < n
        invariant
            i <= n == t.len(),
            t == text@,
            ascii ==> text.is_ascii(),
            forall|k: int| k < i ==> !stops_at(t, k),
        decreases n - i,
    {
        if n - i >= 3 && char_at(text, ascii, i) == 'd' && char_at(text, ascii, i + 1) == 'y'
            && char_at(text, ascii, i + 2) == 'n' {
            if check_before(text, ascii, i) && check_after(text, ascii, n, i) {
                assert(stops_at(t, i as int));
                return false;
            }
        }
        assert(!stops_at(t, i as int));
        i = i + 1;
    }
    assert forall|k: int| !stops_at(t, k) by {
        if k >= n {
            assert(!dyn_at(t, k));
        }
    }
    true
}

} // verus!
