//! The recursive-descent parser.
//!
//! A single forward-only cursor runs over the positioned characters.  The
//! top level separates identity runs, `[ ... ]` names, `\tag{ ... }`
//! headers and `+group{ ... }` descriptions; each delimited block is
//! parsed recursively into a token tree, tracking only the closing
//! delimiter the current call owes.  The whole behaviour — the token
//! trees, the cursor's final position, and every error with the
//! positions it carries — is pinned down by the specification functions
//! `spec_parse_block` and `spec_parse` below.

use vstd::prelude::*;
use crate::chars::{Char, char_is_whitespace, char_is_alphanumeric};
use crate::text::{Text, Token, TokenV, tokens_view, lemma_tokens_view_push};

verus! {

/// Everything the parser can reject, with the positions involved.
#[derive(Clone, Copy, Debug)]
pub enum ParseError {
    /// A character outside every recognized construct.
    UnexpectedCharacter(Char),
    /// The block opened by this character never closes.
    NoClosingBracket(Char),
    /// The block opened by the first character was closed by the second,
    /// of a different bracket kind.
    BracketsDoNotMatch(Char, Char),
    /// The input ended while a description or header prefix was open.
    UnexpectedEndOfFile,
}

/// One top-level construct.
#[derive(Debug)]
pub enum Expr {
    /// A maximal run of alphanumeric characters, `-` or `,`.
    Identity(Vec<Char>),
    /// The content of a `[ ... ]` block: the display name of the
    /// preceding identity.
    Name(Text),
    /// `\tag{ ... }`: a wrapper tag applied at document top.
    Head(Vec<Char>, Text),
    /// `+group{ ... }`: a description, with its (possibly empty) group.
    Desc(Vec<Char>, Text),
}

/// Mathematical image of an `Expr`.
pub enum ExprV {
    Identity(Seq<Char>),
    Name(Seq<TokenV>),
    Head(Seq<Char>, Seq<TokenV>),
    Desc(Seq<Char>, Seq<TokenV>),
}

impl Expr {
    /// The mathematical image of this expression.
    pub open spec fn view(&self) -> ExprV {
        match self {
            Expr::Identity(s) => ExprV::Identity(s@),
            Expr::Name(t) => ExprV::Name(t@),
            Expr::Head(s, t) => ExprV::Head(s@, t@),
            Expr::Desc(s, t) => ExprV::Desc(s@, t@),
        }
    }
}

/// The images of a list of expressions, in order.
pub open spec fn exprs_view(es: Seq<Expr>) -> Seq<ExprV> {
    Seq::new(
        es.len(),
        |i: int|
            if 0 <= i < es.len() {
                es[i].view()
            } else {
                arbitrary()
            },
    )
}

/// The image of an expression list indexes to the images of its entries.
pub proof fn lemma_exprs_view(es: Seq<Expr>)
    ensures
        exprs_view(es).len() == es.len(),
        forall|i: int| 0 <= i < es.len() ==> exprs_view(es)[i] == #[trigger] es[i].view(),
{
}

/// Appending one expression appends its image.
pub proof fn lemma_exprs_view_push(es: Seq<Expr>, e: Expr)
    ensures
        exprs_view(es.push(e)) == exprs_view(es) + seq![e.view()],
{
    assert(exprs_view(es.push(e)) =~= exprs_view(es) + seq![e.view()]);
}

/// The closing delimiter owed for an opening bracket character.
pub open spec fn closing_of(c: char) -> char {
    if c == '{' {
        '}'
    } else if c == '[' {
        ']'
    } else {
        ')'
    }
}

/// Wraps a parsed block body in the token for its bracket kind.
pub open spec fn wrap_block(open: char, inner: Seq<TokenV>) -> TokenV {
    if open == '{' {
        TokenV::Block(inner)
    } else if open == '[' {
        TokenV::Link(inner)
    } else {
        TokenV::Paren(inner)
    }
}

/// Clamps a continuation position into `i + 1 ..= s.len()` so that the
/// recursion below visibly terminates; `lemma_spec_parse_block_bounds`
/// shows the positions the parser hands it are already in that range.
pub open spec fn clamp_pos(s: Seq<Char>, i: int, j: int) -> int {
    if j < i + 1 {
        i + 1
    } else if j > s.len() {
        s.len() as int
    } else {
        j
    }
}

/// What parsing a delimited block from position `i` returns: the token
/// images of the block's body and the position just past its closing
/// delimiter, or the exact error.  `start` is the opening character,
/// kept for error reporting alone; `delim` is the closing delimiter the
/// call owes.
pub open spec fn spec_parse_block(s: Seq<Char>, i: int, start: Char, delim: char) -> Result<
    (Seq<TokenV>, int),
    ParseError,
>
    decreases s.len() - i,
{
    if i < 0 || i >= s.len() {
        Err(ParseError::NoClosingBracket(start))
    } else {
        let c = s[i];
        if c.value == '\\' {
            if i + 1 >= s.len() {
                Err(ParseError::NoClosingBracket(start))
            } else {
                match spec_parse_block(s, i + 2, start, delim) {
                    Ok((rest, j)) => Ok((seq![TokenV::EscapedChar(s[i + 1])] + rest, j)),
                    Err(e) => Err(e),
                }
            }
        } else if c.value == '{' || c.value == '[' || c.value == '(' {
            match spec_parse_block(s, i + 1, c, closing_of(c.value)) {
                Ok((inner, j)) => match spec_parse_block(s, clamp_pos(s, i, j), start, delim) {
                    Ok((rest, k)) => Ok((seq![wrap_block(c.value, inner)] + rest, k)),
                    Err(e) => Err(e),
                },
                Err(e) => Err(e),
            }
        } else if c.value == delim {
            Ok((Seq::empty(), i + 1))
        } else if c.value == '}' || c.value == ']' || c.value == ')' {
            Err(ParseError::BracketsDoNotMatch(start, c))
        } else {
            match spec_parse_block(s, i + 1, start, delim) {
                Ok((rest, j)) => Ok((seq![TokenV::Char(c)] + rest, j)),
                Err(e) => Err(e),
            }
        }
    }
}

/// A successful block parse ends past its starting position and inside
/// the input, so the clamp in `spec_parse_block` never alters it.
pub proof fn lemma_spec_parse_block_bounds(s: Seq<Char>, i: int, start: Char, delim: char)
    ensures
        spec_parse_block(s, i, start, delim) matches Ok((tv, j)) ==> i + 1 <= j <= s.len(),
    decreases s.len() - i,
{
    if 0 <= i < s.len() {
        let c = s[i];
        if c.value == '\\' {
            if i + 1 < s.len() {
                lemma_spec_parse_block_bounds(s, i + 2, start, delim);
            }
        } else if c.value == '{' || c.value == '[' || c.value == '(' {
            lemma_spec_parse_block_bounds(s, i + 1, c, closing_of(c.value));
            match spec_parse_block(s, i + 1, c, closing_of(c.value)) {
                Ok(pair) => {
                    lemma_spec_parse_block_bounds(s, clamp_pos(s, i, pair.1), start, delim);
                },
                Err(_) => {},
            }
        } else if c.value == delim {
        } else if c.value == '}' || c.value == ']' || c.value == ')' {
        } else {
            lemma_spec_parse_block_bounds(s, i + 1, start, delim);
        }
    }
}

/// The state of the top-level scan: between constructs, inside an
/// identity run, or inside a description/header prefix, each with the
/// position where the run or prefix began.
pub enum TopState {
    Space,
    Ident(int),
    Desc(int),
    Head(int),
}

/// The expressions a pending identity run contributes when a separator
/// ends it.
pub open spec fn flush_ident(s: Seq<Char>, st: TopState, i: int) -> Seq<ExprV> {
    match st {
        TopState::Ident(j0) => seq![ExprV::Identity(s.subrange(j0, i))],
        _ => Seq::empty(),
    }
}

/// What the top-level scan returns from position `i` in state `st`: the
/// expression images in source order, or the exact error.
pub open spec fn spec_parse(s: Seq<Char>, i: int, st: TopState) -> Result<Seq<ExprV>, ParseError>
    decreases s.len() - i,
{
    if i < 0 {
        arbitrary()
    } else if i >= s.len() {
        match st {
            TopState::Space => Ok(Seq::empty()),
            TopState::Ident(j0) => Ok(seq![ExprV::Identity(s.subrange(j0, s.len() as int))]),
            TopState::Desc(_) => Err(ParseError::UnexpectedEndOfFile),
            TopState::Head(_) => Err(ParseError::UnexpectedEndOfFile),
        }
    } else {
        let c = s[i];
        match st {
            TopState::Desc(j0) => if c.value == '{' {
                match spec_parse_block(s, i + 1, c, '}') {
                    Ok((tv, j)) => match spec_parse(s, clamp_pos(s, i, j), TopState::Space) {
                        Ok(rest) => Ok(seq![ExprV::Desc(s.subrange(j0 + 1, i), tv)] + rest),
                        Err(e) => Err(e),
                    },
                    Err(e) => Err(e),
                }
            } else {
                spec_parse(s, i + 1, TopState::Desc(j0))
            },
            TopState::Head(j0) => if c.value == '{' {
                match spec_parse_block(s, i + 1, c, '}') {
                    Ok((tv, j)) => match spec_parse(s, clamp_pos(s, i, j), TopState::Space) {
                        Ok(rest) => Ok(seq![ExprV::Head(s.subrange(j0 + 1, i), tv)] + rest),
                        Err(e) => Err(e),
                    },
                    Err(e) => Err(e),
                }
            } else {
                spec_parse(s, i + 1, TopState::Head(j0))
            },
            _ => {
                if c.value == '+' {
                    match spec_parse(s, i + 1, TopState::Desc(i)) {
                        Ok(rest) => Ok(flush_ident(s, st, i) + rest),
                        Err(e) => Err(e),
                    }
                } else if c.value == '\\' {
                    match spec_parse(s, i + 1, TopState::Head(i)) {
                        Ok(rest) => Ok(flush_ident(s, st, i) + rest),
                        Err(e) => Err(e),
                    }
                } else if c.value == '[' {
                    match spec_parse_block(s, i + 1, c, ']') {
                        Ok((tv, j)) => match spec_parse(s, clamp_pos(s, i, j), TopState::Space) {
                            Ok(rest) => Ok(
                                flush_ident(s, st, i) + seq![ExprV::Name(tv)] + rest,
                            ),
                            Err(e) => Err(e),
                        },
                        Err(e) => Err(e),
                    }
                } else if char_is_whitespace(c.value) {
                    match spec_parse(s, i + 1, TopState::Space) {
                        Ok(rest) => Ok(flush_ident(s, st, i) + rest),
                        Err(e) => Err(e),
                    }
                } else if c.value == '-' || c.value == ',' || char_is_alphanumeric(c.value) {
                    match st {
                        TopState::Ident(j0) => spec_parse(s, i + 1, TopState::Ident(j0)),
                        _ => spec_parse(s, i + 1, TopState::Ident(i)),
                    }
                } else {
                    Err(ParseError::UnexpectedCharacter(c))
                }
            },
        }
    }
}

/// The top-level scan state, as the executable parser tracks it.
enum Mode {
    MSpace,
    MIdent(usize),
    MDesc(usize),
    MHead(usize),
}

impl Mode {
    /// The specification-level state this mode stands for.
    spec fn view(&self) -> TopState {
        match self {
            Mode::MSpace => TopState::Space,
            Mode::MIdent(j0) => TopState::Ident(*j0 as int),
            Mode::MDesc(j0) => TopState::Desc(*j0 as int),
            Mode::MHead(j0) => TopState::Head(*j0 as int),
        }
    }
}

/// The parsing cursor: the whole input and the position reached so far.
/// Nested block parses share the same cursor, so each recursive call
/// consumes from where its caller stopped.
pub struct Source {
    pub source: Vec<Char>,
    pub index: usize,
}

impl Source {
    /// A cursor at the start of the given input, holding its own copy
    /// of the characters.
    pub fn from(source: &[Char]) -> (r: Source)
        ensures
            r.source@ == source@,
            r.index == 0,
    {
        let mut v: Vec<Char> = Vec::new();
        let mut i: usize = 0;
        while i < source.len()
            invariant
                i <= source@.len(),
                v@ == source@.subrange(0, i as int),
            decreases source@.len() - i,
        {
            v.push(source[i]);
            i += 1;
        }
        proof {
            assert(v@ =~= source@);
        }
        Source { source: v, index: 0 }
    }

    /// A copy of the characters between two positions.
    fn copy_span(&self, from: usize, to: usize) -> (r: Vec<Char>)
        requires
            from <= to <= self.source@.len(),
        ensures
            r@ == self.source@.subrange(from as int, to as int),
    {
        let mut v: Vec<Char> = Vec::new();
        let mut i: usize = from;
        while i < to
            invariant
                from <= i <= to <= self.source@.len(),
                v@ == self.source@.subrange(from as int, i as int),
            decreases to - i,
        {
            v.push(self.source[i]);
            proof {
                assert(self.source@.subrange(from as int, i + 1 as int) =~= self.source@.subrange(
                    from as int,
                    i as int,
                ).push(self.source@[i as int]));
            }
            i += 1;
        }
        v
    }

    /// Pushes the pending identity run, if the scan is inside one.
    fn flush(&self, mode: &Mode, cur: usize, ret: &mut Vec<Expr>)
        requires
            cur <= self.source@.len(),
            mode matches Mode::MIdent(j0) ==> j0 <= cur,
        ensures
            exprs_view(final(ret)@) == exprs_view(old(ret)@) + flush_ident(
                self.source@,
                mode@,
                cur as int,
            ),
    {
        match mode {
            Mode::MIdent(j0) => {
                let span = self.copy_span(*j0, cur);
                let e = Expr::Identity(span);
                let ghost ee = e;
                let ghost old_ret = ret@;
                ret.push(e);
                proof {
                    lemma_exprs_view_push(old_ret, ee);
                    assert(exprs_view(ret@) =~= exprs_view(old_ret) + flush_ident(
                        self.source@,
                        mode@,
                        cur as int,
                    ));
                }
            },
            _ => {
                proof {
                    assert(exprs_view(ret@) + flush_ident(self.source@, mode@, cur as int)
                        =~= exprs_view(ret@));
                }
            },
        }
    }

    /// Parses the whole input from the cursor's position into the list
    /// of top-level expressions, in source order.  The result — trees,
    /// spans and errors alike — is exactly that of `spec_parse` from the
    /// starting position.
    pub fn parse(&mut self) -> (r: Result<Vec<Expr>, ParseError>)
        ensures
            final(self).source == old(self).source,
            match spec_parse(old(self).source@, old(self).index as int, TopState::Space) {
                Ok(evs) => r matches Ok(es) && exprs_view(es@) == evs,
                Err(e) => r matches Err(e2) && e2 == e,
            },
    {
        let ghost s = self.source@;
        let ghost i0 = self.index as int;
        let mut ret: Vec<Expr> = Vec::new();
        let mut mode = Mode::MSpace;
        proof {
            assert(exprs_view(ret@) =~= Seq::<ExprV>::empty());
            match spec_parse(s, i0, TopState::Space) {
                Ok(rest) => {
                    assert(exprs_view(ret@) + rest =~= rest);
                },
                Err(_) => {},
            }
        }
        loop
            invariant
                self.source == old(self).source,
                s == old(self).source@,
                i0 == old(self).index as int,
                i0 <= self.index,
                self.index as int <= s.len() || self.index as int == i0,
                match mode {
                    Mode::MSpace => true,
                    Mode::MIdent(j0) => j0 < self.index && (j0 as int) < s.len(),
                    Mode::MDesc(j0) => j0 < self.index,
                    Mode::MHead(j0) => j0 < self.index,
                },
                match spec_parse(s, self.index as int, mode@) {
                    Ok(rest) => spec_parse(s, i0, TopState::Space) == Ok::<
                        Seq<ExprV>,
                        ParseError,
                    >(exprs_view(ret@) + rest),
                    Err(e) => spec_parse(s, i0, TopState::Space) == Err::<
                        Seq<ExprV>,
                        ParseError,
                    >(e),
                },
            decreases s.len() - self.index,
        {
            if self.index >= self.source.len() {
                match mode {
                    Mode::MSpace => {
                        proof {
                            assert(exprs_view(ret@) + Seq::<ExprV>::empty() =~= exprs_view(ret@));
                        }
                        return Ok(ret);
                    },
                    Mode::MIdent(j0) => {
                        let span = self.copy_span(j0, self.source.len());
                        let e = Expr::Identity(span);
                        let ghost ee = e;
                        let ghost old_ret = ret@;
                        ret.push(e);
                        proof {
                            lemma_exprs_view_push(old_ret, ee);
                            assert(exprs_view(ret@) =~= exprs_view(old_ret) + seq![
                                ExprV::Identity(s.subrange(j0 as int, s.len() as int)),
                            ]);
                        }
                        return Ok(ret);
                    },
                    Mode::MDesc(_) => {
                        return Err(ParseError::UnexpectedEndOfFile);
                    },
                    Mode::MHead(_) => {
                        return Err(ParseError::UnexpectedEndOfFile);
                    },
                }
            }
            let at = self.index;
            let ghost cur = at as int;
            let c = self.source[at];
            self.index = at + 1;
            match mode {
                Mode::MDesc(j0) => {
                    if c.value == '{' {
                        let sub = self.parse_block(c, '}');
                        match sub {
                            Err(e) => {
                                return Err(e);
                            },
                            Ok(t) => {
                                let span = self.copy_span(j0 + 1, at);
                                let e = Expr::Desc(span, t);
                                let ghost ee = e;
                                let ghost old_ret = ret@;
                                ret.push(e);
                                mode = Mode::MSpace;
                                proof {
                                    lemma_spec_parse_block_bounds(s, cur + 1, c, '}');
                                    lemma_exprs_view_push(old_ret, ee);
                                    match spec_parse_block(s, cur + 1, c, '}') {
                                        Ok(pair) => {
                                            assert(clamp_pos(s, cur, pair.1) == pair.1);
                                            match spec_parse(s, pair.1, TopState::Space) {
                                                Ok(rest) => {
                                                    assert(exprs_view(old_ret) + (seq![
                                                        ExprV::Desc(
                                                            s.subrange(j0 + 1 as int, cur),
                                                            pair.0,
                                                        ),
                                                    ] + rest) =~= exprs_view(ret@) + rest);
                                                },
                                                Err(_) => {},
                                            }
                                        },
                                        Err(_) => {},
                                    }
                                }
                            },
                        }
                    }
                },
                Mode::MHead(j0) => {
                    if c.value == '{' {
                        let sub = self.parse_block(c, '}');
                        match sub {
                            Err(e) => {
                                return Err(e);
                            },
                            Ok(t) => {
                                let span = self.copy_span(j0 + 1, at);
                                let e = Expr::Head(span, t);
                                let ghost ee = e;
                                let ghost old_ret = ret@;
                                ret.push(e);
                                mode = Mode::MSpace;
                                proof {
                                    lemma_spec_parse_block_bounds(s, cur + 1, c, '}');
                                    lemma_exprs_view_push(old_ret, ee);
                                    match spec_parse_block(s, cur + 1, c, '}') {
                                        Ok(pair) => {
                                            assert(clamp_pos(s, cur, pair.1) == pair.1);
                                            match spec_parse(s, pair.1, TopState::Space) {
                                                Ok(rest) => {
                                                    assert(exprs_view(old_ret) + (seq![
                                                        ExprV::Head(
                                                            s.subrange(j0 + 1 as int, cur),
                                                            pair.0,
                                                        ),
                                                    ] + rest) =~= exprs_view(ret@) + rest);
                                                },
                                                Err(_) => {},
                                            }
                                        },
                                        Err(_) => {},
                                    }
                                }
                            },
                        }
                    }
                },
                _ => {
                    let ghost st0 = mode@;
                    let ghost flushv = flush_ident(s, st0, cur);
                    if c.value == '+' {
                        let ghost ret0 = ret@;
                        self.flush(&mode, at, &mut ret);
                        mode = Mode::MDesc(at);
                        proof {
                            match spec_parse(s, cur + 1, TopState::Desc(cur)) {
                                Ok(rest) => {
                                    assert(exprs_view(ret0) + (flushv + rest) =~= exprs_view(ret@)
                                        + rest);
                                },
                                Err(_) => {},
                            }
                        }
                    } else if c.value == '\\' {
                        let ghost ret0 = ret@;
                        self.flush(&mode, at, &mut ret);
                        mode = Mode::MHead(at);
                        proof {
                            match spec_parse(s, cur + 1, TopState::Head(cur)) {
                                Ok(rest) => {
                                    assert(exprs_view(ret0) + (flushv + rest) =~= exprs_view(ret@)
                                        + rest);
                                },
                                Err(_) => {},
                            }
                        }
                    } else if c.value == '[' {
                        let ghost ret0 = ret@;
                        self.flush(&mode, at, &mut ret);
                        let sub = self.parse_block(c, ']');
                        match sub {
                            Err(e) => {
                                return Err(e);
                            },
                            Ok(t) => {
                                let e = Expr::Name(t);
                                let ghost ee = e;
                                let ghost mid_ret = ret@;
                                ret.push(e);
                                mode = Mode::MSpace;
                                proof {
                                    lemma_spec_parse_block_bounds(s, cur + 1, c, ']');
                                    lemma_exprs_view_push(mid_ret, ee);
                                    match spec_parse_block(s, cur + 1, c, ']') {
                                        Ok(pair) => {
                                            assert(clamp_pos(s, cur, pair.1) == pair.1);
                                            match spec_parse(s, pair.1, TopState::Space) {
                                                Ok(rest) => {
                                                    assert(exprs_view(ret0) + ((flushv + seq![
                                                        ExprV::Name(pair.0),
                                                    ]) + rest) =~= exprs_view(ret@) + rest);
                                                },
                                                Err(_) => {},
                                            }
                                        },
                                        Err(_) => {},
                                    }
                                }
                            },
                        }
                    } else if c.value.is_whitespace() {
                        let ghost ret0 = ret@;
                        self.flush(&mode, at, &mut ret);
                        mode = Mode::MSpace;
                        proof {
                            match spec_parse(s, cur + 1, TopState::Space) {
                                Ok(rest) => {
                                    assert(exprs_view(ret0) + (flushv + rest) =~= exprs_view(ret@)
                                        + rest);
                                },
                                Err(_) => {},
                            }
                        }
                    } else if c.value == '-' || c.value == ',' || c.value.is_alphanumeric() {
                        match mode {
                            Mode::MIdent(_) => {},
                            _ => {
                                mode = Mode::MIdent(at);
                            },
                        }
                    } else {
                        return Err(ParseError::UnexpectedCharacter(c));
                    }
                },
            }
        }
    }

    /// Parses one delimited block: consumes up to and including the
    /// closing delimiter `delim` and returns the block's token tree.
    /// `start` is the opening character, carried for error reporting.
    /// The result and the cursor's final position are exactly those of
    /// `spec_parse_block`.
    pub fn parse_block(&mut self, start: Char, delim: char) -> (r: Result<Text, ParseError>)
        ensures
            final(self).source == old(self).source,
            match spec_parse_block(old(self).source@, old(self).index as int, start, delim) {
                Ok((tv, j)) => r matches Ok(t) && t@ == tv && final(self).index == j,
                Err(e) => r matches Err(e2) && e2 == e,
            },
        decreases self.source@.len() - self.index,
    {
        let ghost s = self.source@;
        let ghost i0 = self.index as int;
        let mut ret: Vec<Token> = Vec::new();
        loop
            invariant
                self.source == old(self).source,
                s == old(self).source@,
                i0 == old(self).index as int,
                i0 <= self.index,
                self.index as int <= s.len() || self.index as int == i0,
                match spec_parse_block(s, self.index as int, start, delim) {
                    Ok((tv, j)) => spec_parse_block(s, i0, start, delim) == Ok::<
                        (Seq<TokenV>, int),
                        ParseError,
                    >((tokens_view(ret@) + tv, j)),
                    Err(e) => spec_parse_block(s, i0, start, delim) == Err::<
                        (Seq<TokenV>, int),
                        ParseError,
                    >(e),
                },
            decreases s.len() - self.index,
        {
            let ghost cur = self.index as int;
            if self.index >= self.source.len() {
                return Err(ParseError::NoClosingBracket(start));
            }
            let c = self.source[self.index];
            self.index += 1;
            if c.value == '\\' {
                if self.index >= self.source.len() {
                    return Err(ParseError::NoClosingBracket(start));
                }
                let e = self.source[self.index];
                self.index += 1;
                let ghost old_ret = ret@;
                ret.push(Token::EscapedChar(e));
                proof {
                    lemma_tokens_view_push(old_ret, Token::EscapedChar(e));
                    match spec_parse_block(s, cur + 2, start, delim) {
                        Ok(pair) => {
                            assert(tokens_view(old_ret) + (seq![TokenV::EscapedChar(e)] + pair.0)
                                =~= tokens_view(ret@) + pair.0);
                        },
                        Err(_) => {},
                    }
                }
            } else if c.value == '{' || c.value == '[' || c.value == '(' {
                let close: char = if c.value == '{' {
                    '}'
                } else if c.value == '[' {
                    ']'
                } else {
                    ')'
                };
                proof {
                    assert(close == closing_of(c.value));
                }
                let sub = self.parse_block(c, close);
                match sub {
                    Err(e) => {
                        return Err(e);
                    },
                    Ok(t) => {
                        let tok: Token = if c.value == '{' {
                            Token::Block(t)
                        } else if c.value == '[' {
                            Token::Link(t)
                        } else {
                            Token::Paren(t)
                        };
                        let ghost old_ret = ret@;
                        let ghost tokv = tok.view();
                        ret.push(tok);
                        proof {
                            lemma_spec_parse_block_bounds(s, cur + 1, c, closing_of(c.value));
                            lemma_tokens_view_push(old_ret, tok);
                            match spec_parse_block(s, cur + 1, c, closing_of(c.value)) {
                                Ok(inner_pair) => {
                                    assert(tokv == wrap_block(c.value, inner_pair.0));
                                    assert(clamp_pos(s, cur, inner_pair.1) == inner_pair.1);
                                    match spec_parse_block(s, inner_pair.1, start, delim) {
                                        Ok(pair) => {
                                            assert(tokens_view(old_ret) + (seq![tokv] + pair.0)
                                                =~= tokens_view(ret@) + pair.0);
                                        },
                                        Err(_) => {},
                                    }
                                },
                                Err(_) => {},
                            }
                        }
                    },
                }
            } else if c.value == delim {
                proof {
                    assert(tokens_view(ret@) + Seq::<TokenV>::empty() =~= tokens_view(ret@));
                }
                return Ok(Text { text: ret });
            } else if c.value == '}' || c.value == ']' || c.value == ')' {
                return Err(ParseError::BracketsDoNotMatch(start, c));
            } else {
                let ghost old_ret = ret@;
                ret.push(Token::Char(c));
                proof {
                    lemma_tokens_view_push(old_ret, Token::Char(c));
                    match spec_parse_block(s, cur + 1, start, delim) {
                        Ok(pair) => {
                            assert(tokens_view(old_ret) + (seq![TokenV::Char(c)] + pair.0)
                                =~= tokens_view(ret@) + pair.0);
                        },
                        Err(_) => {},
                    }
                }
            }
        }
    }
}

} // verus!
