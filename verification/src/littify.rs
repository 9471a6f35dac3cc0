//! The alternating-case transformation.
//!
//! Only letters are counted. The first letter of a text becomes lower case,
//! the second upper case, and so on; a character that is no letter stays as
//! it is and does not count. Case is changed within ASCII only: a letter
//! outside ASCII is counted like any other and keeps its form.

use vstd::prelude::*;
use crate::chars::{
    ascii_lower, ascii_upper, is_ascii_letter, is_ascii_lower, is_letter, same_letter,
    to_ascii_lower, to_ascii_upper,
};

verus! {

/// How many of the first `n` characters of `text` are letters.
pub open spec fn letters_before(text: Seq<char>, n: int) -> nat
    decreases n,
{
    if n <= 0 {
        0
    } else {
        letters_before(text, n - 1) + if is_letter(text[n - 1]) {
            1nat
        } else {
            0nat
        }
    }
}

/// The character that stands at `i` after the transformation.
pub open spec fn littified_at(text: Seq<char>, i: int) -> char {
    if !is_letter(text[i]) {
        text[i]
    } else if letters_before(text, i) % 2 == 0 {
        ascii_lower(text[i])
    } else {
        ascii_upper(text[i])
    }
}

/// The transformation: letters take lower and upper case in turn, starting
/// with lower case; everything else stays and is not counted.
pub open spec fn littified(text: Seq<char>) -> Seq<char> {
    Seq::new(text.len(), |i: int| littified_at(text, i))
}

/// The letters of `text`, in order.
pub open spec fn letters(text: Seq<char>) -> Seq<char> {
    text.filter(|c: char| is_letter(c))
}

/// In `ls`, every ASCII letter is lower case at an even index and upper case
/// at an odd one.
pub open spec fn alternates(ls: Seq<char>) -> bool {
    forall|k: int|
        0 <= k < ls.len() && is_ascii_letter(#[trigger] ls[k]) ==> (is_ascii_lower(ls[k]) <==> k % 2
            == 0)
}

/// Text whose letters can be put in alternating case.
pub trait LittifyStringExt {
    /// The characters of the value.
    spec fn text(&self) -> Seq<char>;

    /// Alternates the case of the letters, starting with lower case.
    fn littify(&self) -> (out: String)
        ensures
            out@ == littified(self.text()),
    ;
}

impl LittifyStringExt for str {
    open spec fn text(&self) -> Seq<char> {
        self@
    }

    fn littify(&self) -> (out: String) {
        let mut out = String::new();
        // whether the next letter becomes lower case
        let mut lower_next = true;
        for c in it: self.chars()
            invariant
                it.seq() == self@,
                out@ == littified(self@).take(it.index() as int),
                lower_next == (letters_before(self@, it.index() as int) % 2 == 0),
        {
            if c.is_alphabetic() {
                if lower_next {
                    out.push(to_ascii_lower(c));
                } else {
                    out.push(to_ascii_upper(c));
                }
                lower_next = !lower_next;
            } else {
                out.push(c);
            }
        }
        out
    }
}

impl LittifyStringExt for String {
    open spec fn text(&self) -> Seq<char> {
        self@
    }

    fn littify(&self) -> (out: String) {
        self.as_str().littify()
    }
}

/// Alternates the case of the letters of `orig`: the first letter becomes
/// lower case, the second upper case, and so on. Characters that are not
/// letters stay as they are and do not count.
///
/// The result has the length of `orig`, differs from it at most in the ASCII
/// case of its letters, has its letters where `orig` has them, and read
/// without what is no letter it alternates between lower and upper case.
pub fn littify_string(orig: String) -> (out: String)
    ensures
        out@ == littified(orig@),
        out@.len() == orig@.len(),
        forall|i: int| 0 <= i < orig@.len() ==> same_letter(#[trigger] out@[i], orig@[i]),
        forall|i: int| 0 <= i < orig@.len() ==> is_letter(#[trigger] out@[i]) == is_letter(orig@[i]),
        alternates(letters(out@)),
{
    proof {
        lemma_littified_keeps_shape(orig@);
        lemma_littified_alternates(orig@);
    }
    orig.littify()
}

/// The transformation keeps the length of the text, changes a character at
/// most in its ASCII case, and turns letters into letters and everything
/// else into itself.
pub proof fn lemma_littified_keeps_shape(text: Seq<char>)
    ensures
        littified(text).len() == text.len(),
        forall|i: int| 0 <= i < text.len() ==> same_letter(#[trigger] littified(text)[i], text[i]),
        forall|i: int|
            0 <= i < text.len() ==> is_letter(#[trigger] littified(text)[i]) == is_letter(text[i]),
        forall|i: int|
            0 <= i < text.len() && !is_letter(text[i]) ==> #[trigger] littified(text)[i] == text[i],
{
}

/// The letters among the first `n` characters of the result are those among
/// the first `n` characters of `text`, lower case at even rank and upper
/// case at odd rank.
proof fn lemma_letters_of_prefix(text: Seq<char>, n: int)
    requires
        0 <= n <= text.len(),
    ensures
        letters(text.take(n)).len() == letters_before(text, n),
        letters(littified(text).take(n)).len() == letters_before(text, n),
        forall|k: int|
            0 <= k < letters_before(text, n) ==> #[trigger] letters(littified(text).take(n))[k]
                == if k % 2 == 0 {
                ascii_lower(letters(text.take(n))[k])
            } else {
                ascii_upper(letters(text.take(n))[k])
            },
    decreases n,
{
    reveal(Seq::filter);
    if n > 0 {
        lemma_letters_of_prefix(text, n - 1);
        let out = littified(text);
        assert(text.take(n).drop_last() =~= text.take(n - 1));
        assert(out.take(n).drop_last() =~= out.take(n - 1));
        assert(out.take(n).last() == littified_at(text, n - 1));
    }
}

/// Read without what is no letter, the result is the letters of `text` with
/// lower case at the even places and upper case at the odd places, counted
/// from zero. Of the letters of ASCII this makes a strict alternation that
/// starts with lower case; a letter outside ASCII keeps its form.
pub proof fn lemma_littified_alternates(text: Seq<char>)
    ensures
        letters(littified(text)).len() == letters(text).len(),
        forall|k: int|
            0 <= k < letters(text).len() ==> #[trigger] letters(littified(text))[k] == if k % 2
                == 0 {
                ascii_lower(letters(text)[k])
            } else {
                ascii_upper(letters(text)[k])
            },
        alternates(letters(littified(text))),
{
    let n = text.len() as int;
    lemma_letters_of_prefix(text, n);
    assert(text.take(n) =~= text);
    assert(littified(text).take(n) =~= littified(text));
}

/// The result has its letters where `text` has them.
proof fn lemma_letters_before_kept(text: Seq<char>, n: int)
    requires
        0 <= n <= text.len(),
    ensures
        letters_before(littified(text), n) == letters_before(text, n),
    decreases n,
{
    if n > 0 {
        lemma_letters_before_kept(text, n - 1);
    }
}

/// Transforming a text twice gives what transforming it once gives.
pub proof fn lemma_littified_twice(text: Seq<char>)
    ensures
        littified(littified(text)) == littified(text),
{
    assert forall|i: int| 0 <= i < text.len() implies littified(littified(text))[i] == littified(
        text,
    )[i] by {
        lemma_letters_before_kept(text, i);
    }
    assert(littified(littified(text)) =~= littified(text));
}

} // verus!
