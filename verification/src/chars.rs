//! Positioned characters: the unit of input for the whole compiler.
//!
//! A `Char` carries the character value together with the file number,
//! line and column where it was written.  The position is metadata for
//! diagnostics only: everywhere the compiler compares characters or
//! character spans, it compares the values alone, so that two occurrences
//! of the same text at different positions are interchangeable.

use vstd::prelude::*;

verus! {

/// One input character together with its source position.
#[derive(Clone, Copy, Debug)]
pub struct Char {
    /// The character value: the sole basis of every comparison.
    pub value: char,
    /// 1-based number of the file the character came from.
    pub file: usize,
    /// 1-based line within that file.
    pub line: usize,
    /// 1-based column within that line.
    pub pos: usize,
}

/// The character values of a span, in order: what comparisons look at.
pub open spec fn span_values(s: Seq<Char>) -> Seq<char> {
    s.map(|i: int, c: Char| c.value)
}

/// The values of a span index to the values of its characters.
pub proof fn lemma_span_values(q: Seq<Char>)
    ensures
        span_values(q).len() == q.len(),
        forall|i: int| 0 <= i < q.len() ==> span_values(q)[i] == (#[trigger] q[i]).value,
{
}

/// Two spans match when their character values agree position by position.
pub open spec fn span_matches(a: Seq<Char>, b: Seq<Char>) -> bool {
    span_values(a) == span_values(b)
}

/// Value-level equality of two spans, ignoring positions.
pub fn span_eq(a: &[Char], b: &[Char]) -> (r: bool)
    ensures
        r == span_matches(a@, b@),
{
    if a.len() != b.len() {
        proof {
            assert(span_values(a@).len() == a@.len());
            assert(span_values(b@).len() == b@.len());
        }
        return false;
    }
    let n = a.len();
    let mut i: usize = 0;
    while i < n
        invariant
            n == a@.len() == b@.len(),
            i <= n,
            forall|j: int| 0 <= j < i ==> a@[j].value == b@[j].value,
        decreases n - i,
    {
        if a[i].value != b[i].value {
            proof {
                assert(span_values(a@)[i as int] == a@[i as int].value);
                assert(span_values(b@)[i as int] == b@[i as int].value);
            }
            return false;
        }
        i += 1;
    }
    proof {
        assert(span_values(a@) =~= span_values(b@));
    }
    true
}

/// A copy of a character span.
pub fn copy_chars(sp: &Vec<Char>) -> (r: Vec<Char>)
    ensures
        r@ == sp@,
{
    let mut v: Vec<Char> = Vec::new();
    let mut i: usize = 0;
    while i < sp.len()
        invariant
            i <= sp@.len(),
            v@ == sp@.subrange(0, i as int),
        decreases sp@.len() - i,
    {
        v.push(sp[i]);
        i += 1;
    }
    proof {
        assert(v@ =~= sp@);
    }
    v
}

/// A printable wrapper around a character span, exposing its values.
pub struct Display {
    pub text: Vec<Char>,
}

impl Display {
    /// Wraps a span for output.
    pub fn from(text: &[Char]) -> (r: Display)
        ensures
            r.text@ == text@,
    {
        let mut v: Vec<Char> = Vec::new();
        let mut i: usize = 0;
        while i < text.len()
            invariant
                i <= text@.len(),
                v@ == text@.subrange(0, i as int),
            decreases text@.len() - i,
        {
            v.push(text[i]);
            i += 1;
        }
        proof {
            assert(v@ =~= text@);
        }
        Display { text: v }
    }

    /// The character values of the wrapped span, in order.
    pub fn chars(&self) -> (r: Vec<char>)
        ensures
            r@ == span_values(self.text@),
    {
        let mut out: Vec<char> = Vec::new();
        let mut i: usize = 0;
        while i < self.text.len()
            invariant
                i <= self.text@.len(),
                out@ == span_values(self.text@).subrange(0, i as int),
            decreases self.text@.len() - i,
        {
            out.push(self.text[i].value);
            i += 1;
        }
        proof {
            assert(out@ =~= span_values(self.text@));
        }
        out
    }
}

/// What `char::is_whitespace` returns: a fixed classification of the
/// character value alone.
pub uninterp spec fn char_is_whitespace(c: char) -> bool;

/// What `char::is_alphanumeric` returns: a fixed classification of the
/// character value alone.
pub uninterp spec fn char_is_alphanumeric(c: char) -> bool;

/// Relies on `char::is_whitespace`: whether the character has the Unicode
/// `White_Space` property, a function of the character alone.
pub assume_specification[ char::is_whitespace ](c: char) -> (r: bool)
    ensures
        r == char_is_whitespace(c),
;

/// Relies on `char::is_alphanumeric`: whether the character is a Unicode
/// letter or digit, a function of the character alone.
pub assume_specification[ char::is_alphanumeric ](c: char) -> (r: bool)
    ensures
        r == char_is_alphanumeric(c),
;

} // verus!
