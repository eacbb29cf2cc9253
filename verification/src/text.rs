//! The token tree: the parsed representation of one delimited span.
//!
//! A `Text` is an ordered list of `Token`s; a `Token` is a single
//! character, an escaped character, or a nested brace/bracket/paren
//! block.  Texts are compared structurally on character values alone
//! (positions are diagnostics metadata), because name lookup during
//! linking and rendering matches independently written occurrences of
//! the same text.

use vstd::prelude::*;
use crate::chars::Char;

verus! {

/// One parsed token.
#[derive(Debug)]
pub enum Token {
    /// A plain character.
    Char(Char),
    /// A character preceded by a backslash: rendered literally, exempt
    /// from every special meaning.
    EscapedChar(Char),
    /// A brace-delimited `{ ... }` part; the braces are not rendered.
    Block(Text),
    /// A bracket-delimited `[ ... ]` part; rendered as a hyperlink.
    Link(Text),
    /// A parenthesis-delimited `( ... )` part; rendered with its parens.
    Paren(Text),
}

/// An ordered list of tokens: the contents of one delimited span.
#[derive(Debug)]
pub struct Text {
    pub text: Vec<Token>,
}

/// Mathematical image of a `Token`: same shape, with ghost sequences for
/// the nested lists.
pub enum TokenV {
    Char(Char),
    EscapedChar(Char),
    Block(Seq<TokenV>),
    Link(Seq<TokenV>),
    Paren(Seq<TokenV>),
}

impl Token {
    /// The mathematical image of this token.
    pub open spec fn view(&self) -> TokenV
        decreases self,
    {
        match self {
            Token::Char(c) => TokenV::Char(*c),
            Token::EscapedChar(c) => TokenV::EscapedChar(*c),
            Token::Block(t) => TokenV::Block(t.view()),
            Token::Link(t) => TokenV::Link(t.view()),
            Token::Paren(t) => TokenV::Paren(t.view()),
        }
    }
}

/// The images of a list of tokens, in order.
pub open spec fn tokens_view(ts: Seq<Token>) -> Seq<TokenV>
    decreases ts,
{
    Seq::new(
        ts.len(),
        |i: int|
            if 0 <= i < ts.len() {
                ts[i].view()
            } else {
                arbitrary()
            },
    )
}

impl Text {
    /// The mathematical image of this text: the sequence of its tokens'
    /// images.
    pub open spec fn view(&self) -> Seq<TokenV>
        decreases self,
    {
        tokens_view(self.text@)
    }
}

/// Appending one token appends its image.
pub proof fn lemma_tokens_view_push(ts: Seq<Token>, t: Token)
    ensures
        tokens_view(ts.push(t)) == tokens_view(ts) + seq![t.view()],
{
    assert(tokens_view(ts.push(t)) =~= tokens_view(ts) + seq![t.view()]);
}

/// The image of a text indexes to the images of its tokens.
pub proof fn lemma_text_view(t: &Text)
    ensures
        t.view().len() == t.text@.len(),
        forall|i: int| 0 <= i < t.text@.len() ==> t.view()[i] == #[trigger] t.text@[i].view(),
{
}

/// Structural equality of two token images on character values alone.
pub open spec fn token_matches(a: TokenV, b: TokenV) -> bool
    decreases a,
{
    match (a, b) {
        (TokenV::Char(x), TokenV::Char(y)) => x.value == y.value,
        (TokenV::EscapedChar(x), TokenV::EscapedChar(y)) => x.value == y.value,
        (TokenV::Block(x), TokenV::Block(y)) => text_matches(x, y),
        (TokenV::Link(x), TokenV::Link(y)) => text_matches(x, y),
        (TokenV::Paren(x), TokenV::Paren(y)) => text_matches(x, y),
        _ => false,
    }
}

/// Structural equality of two texts on character values alone.
pub open spec fn text_matches(a: Seq<TokenV>, b: Seq<TokenV>) -> bool
    decreases a,
{
    if a.len() != b.len() {
        false
    } else if a.len() == 0 {
        true
    } else {
        token_matches(a[0], b[0]) && text_matches(a.drop_first(), b.drop_first())
    }
}

/// Two texts match exactly when they have the same length and matching
/// tokens at every index.
pub proof fn lemma_text_matches_index(a: Seq<TokenV>, b: Seq<TokenV>)
    ensures
        text_matches(a, b) <==> (a.len() == b.len() && forall|i: int|
            0 <= i < a.len() ==> #[trigger] token_matches(a[i], b[i])),
    decreases a.len(),
{
    if a.len() == b.len() && a.len() > 0 {
        let ta = a.drop_first();
        let tb = b.drop_first();
        lemma_text_matches_index(ta, tb);
        if text_matches(a, b) {
            assert forall|i: int| 0 <= i < a.len() implies #[trigger] token_matches(
                a[i],
                b[i],
            ) by {
                if i > 0 {
                    assert(token_matches(ta[i - 1], tb[i - 1]));
                    assert(ta[i - 1] == a[i]);
                    assert(tb[i - 1] == b[i]);
                }
            }
        }
        if forall|i: int| 0 <= i < a.len() ==> #[trigger] token_matches(a[i], b[i]) {
            assert forall|i: int| 0 <= i < ta.len() implies #[trigger] token_matches(
                ta[i],
                tb[i],
            ) by {
                assert(token_matches(a[i + 1], b[i + 1]));
                assert(ta[i] == a[i + 1]);
                assert(tb[i] == b[i + 1]);
            }
            assert(token_matches(a[0], b[0]));
            assert(text_matches(ta, tb));
            assert(text_matches(a, b));
        }
    }
}

/// Every token matches itself.
pub proof fn lemma_token_matches_refl(t: TokenV)
    ensures
        token_matches(t, t),
    decreases t,
{
    match t {
        TokenV::Block(x) => lemma_text_matches_refl(x),
        TokenV::Link(x) => lemma_text_matches_refl(x),
        TokenV::Paren(x) => lemma_text_matches_refl(x),
        _ => {},
    }
}

/// Every text matches itself.
pub proof fn lemma_text_matches_refl(ts: Seq<TokenV>)
    ensures
        text_matches(ts, ts),
    decreases ts,
{
    if ts.len() > 0 {
        lemma_token_matches_refl(ts[0]);
        lemma_text_matches_refl(ts.drop_first());
    }
}

impl Token {
    /// Structural equality on character values, ignoring positions.
    pub fn matches(&self, other: &Token) -> (r: bool)
        ensures
            r == token_matches(self@, other@),
        decreases self,
    {
        match (self, other) {
            (Token::Char(x), Token::Char(y)) => x.value == y.value,
            (Token::EscapedChar(x), Token::EscapedChar(y)) => x.value == y.value,
            (Token::Block(x), Token::Block(y)) => x.matches(y),
            (Token::Link(x), Token::Link(y)) => x.matches(y),
            (Token::Paren(x), Token::Paren(y)) => x.matches(y),
            _ => false,
        }
    }

    /// A copy of this token with the same image.
    pub fn duplicate(&self) -> (r: Token)
        ensures
            r@ == self@,
        decreases self,
    {
        match self {
            Token::Char(c) => Token::Char(*c),
            Token::EscapedChar(c) => Token::EscapedChar(*c),
            Token::Block(t) => Token::Block(t.duplicate()),
            Token::Link(t) => Token::Link(t.duplicate()),
            Token::Paren(t) => Token::Paren(t.duplicate()),
        }
    }
}

impl Text {
    /// Structural equality on character values, ignoring positions.
    pub fn matches(&self, other: &Text) -> (r: bool)
        ensures
            r == text_matches(self@, other@),
        decreases self,
    {
        proof {
            lemma_text_view(self);
            lemma_text_view(other);
        }
        if self.text.len() != other.text.len() {
            return false;
        }
        let n = self.text.len();
        let mut i: usize = 0;
        while i < n
            invariant
                n == self.text@.len() == other.text@.len(),
                n == self@.len() == other@.len(),
                i <= n,
                forall|j: int| 0 <= j < i ==> #[trigger] token_matches(self@[j], other@[j]),
            decreases n - i,
        {
            let hit = self.text[i].matches(&other.text[i]);
            proof {
                lemma_text_view(self);
                lemma_text_view(other);
                assert(self@[i as int] == self.text@[i as int]@);
                assert(other@[i as int] == other.text@[i as int]@);
            }
            if !hit {
                proof {
                    lemma_text_matches_index(self@, other@);
                }
                return false;
            }
            i += 1;
        }
        proof {
            lemma_text_matches_index(self@, other@);
        }
        true
    }

    /// A copy of this text with the same image.
    pub fn duplicate(&self) -> (r: Text)
        ensures
            r@ == self@,
        decreases self,
    {
        let mut out: Vec<Token> = Vec::new();
        let n = self.text.len();
        let mut i: usize = 0;
        while i < n
            invariant
                n == self.text@.len(),
                i <= n,
                out@.len() == i,
                forall|j: int| 0 <= j < i ==> #[trigger] out@[j]@ == self@[j],
            decreases n - i,
        {
            let t = self.text[i].duplicate();
            proof {
                lemma_text_view(self);
                assert(self@[i as int] == self.text@[i as int]@);
            }
            out.push(t);
            i += 1;
        }
        let r = Text { text: out };
        proof {
            lemma_text_view(self);
            lemma_text_view(&r);
            assert forall|k: int| 0 <= k < r@.len() implies r@[k] == self@[k] by {
                assert(r@[k] == r.text@[k]@);
                assert(out@[k]@ == self@[k]);
            }
            assert(r@ =~= self@);
        }
        r
    }
}

} // verus!
