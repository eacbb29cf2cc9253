//! The laws the compiler obeys, stated and proved over the
//! specification functions that the executable contracts use.

use vstd::prelude::*;
use crate::chars::{Char, span_matches, span_values};
use crate::text::{TokenV, text_matches, token_matches};
use crate::parser::{ParseError, ExprV, spec_parse_block, closing_of, wrap_block, clamp_pos,
    lemma_spec_parse_block_bounds};
use crate::document::{CompileError, DocV, ItemV, LinkState, compile_step, spec_compile_from,
    find_item, find_item_from, state_wf, lemma_compile_step_wf};
use crate::render::{RenderError, Decoration, spec_render_text, find_name, closers};

verus! {

/// An identity that already resolves to an item resolves to that same
/// item when re-declared: the step neither adds an item nor moves the
/// index, it only makes the item current.
pub proof fn lemma_identity_resolves_same(st: LinkState, sp: Seq<Char>, k: int)
    requires
        find_item(st.doc.items, sp) == Some(k),
    ensures
        compile_step(st, ExprV::Identity(sp)) == Ok::<LinkState, CompileError>(
            LinkState { cur: Some(k), ..st },
        ),
{
}

/// Every linking step keeps the existing items' identities: items are
/// only appended, and an update never touches the identity span.
pub proof fn lemma_step_keeps_identities(st: LinkState, e: ExprV)
    requires
        state_wf(st),
    ensures
        compile_step(st, e) matches Ok(st2) ==> {
            &&& st2.doc.items.len() >= st.doc.items.len()
            &&& forall|i: int|
                0 <= i < st.doc.items.len() ==> (#[trigger] st2.doc.items[i]).identity
                    == st.doc.items[i].identity
        },
{
    match compile_step(st, e) {
        Ok(st2) => {
            assert forall|i: int| 0 <= i < st.doc.items.len() implies (#[trigger] st2.doc.items[i]).identity
                == st.doc.items[i].identity by {
                match e {
                    ExprV::Identity(sp) => {},
                    ExprV::Name(_) => {},
                    ExprV::Head(_, _) => {},
                    ExprV::Desc(_, _) => {},
                }
            }
        },
        Err(_) => {},
    }
}

/// An identity search that hits stays a hit, with the same index, after
/// items are appended or updated without touching identities.
pub proof fn lemma_find_item_stable(
    items: Seq<ItemV>,
    items2: Seq<ItemV>,
    sp: Seq<Char>,
    j: int,
    k: int,
)
    requires
        items2.len() >= items.len(),
        forall|i: int|
            0 <= i < items.len() ==> (#[trigger] items2[i]).identity == items[i].identity,
        find_item_from(items, sp, j) == Some(k),
        j >= 0,
    ensures
        find_item_from(items2, sp, j) == Some(k),
    decreases items.len() - j,
{
    if j < items.len() {
        if !span_matches(items[j].identity, sp) {
            lemma_find_item_stable(items, items2, sp, j + 1, k);
        }
    }
}

/// Idempotent interning: once an identity span resolves to an item
/// index, compiling any further expressions leaves it resolving to that
/// same index — so a re-declaration anywhere later in the input makes
/// the same item current.
pub proof fn lemma_identity_interning_stable(st: LinkState, evs: Seq<ExprV>, j: int, sp: Seq<Char>, k: int)
    requires
        state_wf(st),
        find_item(st.doc.items, sp) == Some(k),
    ensures
        spec_compile_from(st, evs, j) matches Ok(st2) ==> find_item(st2.doc.items, sp) == Some(
            k,
        ),
    decreases evs.len() - j,
{
    if 0 <= j < evs.len() {
        lemma_step_keeps_identities(st, evs[j]);
        lemma_compile_step_wf(st, evs[j]);
        match compile_step(st, evs[j]) {
            Ok(st2) => {
                lemma_find_item_stable(st.doc.items, st2.doc.items, sp, 0, k);
                lemma_identity_interning_stable(st2, evs, j + 1, sp, k);
            },
            Err(_) => {},
        }
    }
}

/// A second name for the current item succeeds silently when it matches
/// the declared one structurally, and fails with the duplicate-name
/// error when it does not.
pub proof fn lemma_duplicate_name(st: LinkState, k: int, tv: Seq<TokenV>)
    requires
        st.cur == Some(k),
        0 <= k < st.doc.items.len(),
        st.doc.items[k].name is Some,
    ensures
        text_matches(st.doc.items[k].name->Some_0, tv) ==> compile_step(st, ExprV::Name(tv))
            == Ok::<LinkState, CompileError>(st),
        !text_matches(st.doc.items[k].name->Some_0, tv) ==> compile_step(st, ExprV::Name(tv))
            == Err::<LinkState, CompileError>(CompileError::DuplicateName),
{
}

/// A name before any identity is rejected, and so is a description.
pub proof fn lemma_no_identity_errors(st: LinkState, g: Seq<Char>, tv: Seq<TokenV>)
    requires
        st.cur is None,
    ensures
        compile_step(st, ExprV::Name(tv)) == Err::<LinkState, CompileError>(
            CompileError::NoIdentityBeforeName,
        ),
        compile_step(st, ExprV::Desc(g, tv)) == Err::<LinkState, CompileError>(
            CompileError::NoIdentityBeforeDesc,
        ),
{
}

/// The literal text a parsed token came from: escapes get their
/// backslash back, and every delimiter pair is restored around its
/// block.
pub open spec fn unparse_token(t: TokenV) -> Seq<char>
    decreases t,
{
    match t {
        TokenV::Char(c) => seq![c.value],
        TokenV::EscapedChar(c) => seq!['\\', c.value],
        TokenV::Block(inner) => seq!['{'] + unparse_text(inner) + seq!['}'],
        TokenV::Link(inner) => seq!['['] + unparse_text(inner) + seq![']'],
        TokenV::Paren(inner) => seq!['('] + unparse_text(inner) + seq![')'],
    }
}

/// The literal text a parsed token list came from.
pub open spec fn unparse_text(ts: Seq<TokenV>) -> Seq<char>
    decreases ts,
{
    if ts.len() == 0 {
        Seq::empty()
    } else {
        unparse_token(ts[0]) + unparse_text(ts.drop_first())
    }
}

/// Unparsing distributes over prepending one token.
pub proof fn lemma_unparse_cons(t: TokenV, ts: Seq<TokenV>)
    ensures
        unparse_text(seq![t] + ts) == unparse_token(t) + unparse_text(ts),
{
    let s = seq![t] + ts;
    assert(s.len() > 0);
    assert(s[0] == t);
    assert(s.drop_first() =~= ts);
}

/// Reconstruction: whenever a block parses, the literal text rebuilt
/// from its token tree is exactly the characters between the block's
/// start and its closing delimiter, which is the expected one.
pub proof fn lemma_parse_block_reconstructs(s: Seq<Char>, i: int, start: Char, delim: char)
    ensures
        spec_parse_block(s, i, start, delim) matches Ok(pair) ==> {
            &&& i + 1 <= pair.1 <= s.len()
            &&& s[pair.1 - 1].value == delim
            &&& unparse_text(pair.0) == span_values(s.subrange(i, pair.1 - 1))
        },
    decreases s.len() - i,
{
    lemma_spec_parse_block_bounds(s, i, start, delim);
    if 0 <= i < s.len() {
        let c = s[i];
        if c.value == '\\' {
            if i + 1 < s.len() {
                lemma_parse_block_reconstructs(s, i + 2, start, delim);
                match spec_parse_block(s, i + 2, start, delim) {
                    Ok((rest, j)) => {
                        lemma_unparse_cons(TokenV::EscapedChar(s[i + 1]), rest);
                        crate::chars::lemma_span_values(s.subrange(i, j - 1));
                        crate::chars::lemma_span_values(s.subrange(i + 2, j - 1));
                        assert(span_values(s.subrange(i, j - 1)) =~= seq!['\\', s[i + 1].value]
                            + span_values(s.subrange(i + 2, j - 1)));
                    },
                    Err(_) => {},
                }
            }
        } else if c.value == '{' || c.value == '[' || c.value == '(' {
            lemma_parse_block_reconstructs(s, i + 1, c, closing_of(c.value));
            lemma_spec_parse_block_bounds(s, i + 1, c, closing_of(c.value));
            match spec_parse_block(s, i + 1, c, closing_of(c.value)) {
                Ok((inner, j)) => {
                    lemma_parse_block_reconstructs(s, j, start, delim);
                    match spec_parse_block(s, j, start, delim) {
                        Ok((rest, k)) => {
                            lemma_unparse_cons(wrap_block(c.value, inner), rest);
                            crate::chars::lemma_span_values(s.subrange(i, k - 1));
                            crate::chars::lemma_span_values(s.subrange(i + 1, j - 1));
                            crate::chars::lemma_span_values(s.subrange(j, k - 1));
                            assert(unparse_token(wrap_block(c.value, inner)) =~= seq![c.value]
                                + span_values(s.subrange(i + 1, j - 1)) + seq![
                                s[j - 1].value,
                            ]);
                            assert(span_values(s.subrange(i, k - 1)) =~= (seq![c.value]
                                + span_values(s.subrange(i + 1, j - 1)) + seq![s[j - 1].value])
                                + span_values(s.subrange(j, k - 1)));
                        },
                        Err(_) => {},
                    }
                },
                Err(_) => {},
            }
        } else if c.value == delim {
            match spec_parse_block(s, i, start, delim) {
                Ok((tv, j)) => {
                    crate::chars::lemma_span_values(s.subrange(i, i));
                    assert(unparse_text(tv) =~= span_values(s.subrange(i, i)));
                },
                Err(_) => {},
            }
        } else if c.value == '}' || c.value == ']' || c.value == ')' {
        } else {
            lemma_parse_block_reconstructs(s, i + 1, start, delim);
            match spec_parse_block(s, i + 1, start, delim) {
                Ok((rest, j)) => {
                    lemma_unparse_cons(TokenV::Char(c), rest);
                    crate::chars::lemma_span_values(s.subrange(i, j - 1));
                    crate::chars::lemma_span_values(s.subrange(i + 1, j - 1));
                    assert(span_values(s.subrange(i, j - 1)) =~= seq![c.value] + span_values(
                        s.subrange(i + 1, j - 1),
                    ));
                },
                Err(_) => {},
            }
        }
    }
}

/// Whether a token tree is one the parser itself could have produced:
/// no plain `Char` token holds a backslash or a bracket character —
/// those always come out as escapes or nested blocks.
pub open spec fn canonical_token(t: TokenV) -> bool
    decreases t,
{
    match t {
        TokenV::Char(c) => c.value != '\\' && c.value != '{' && c.value != '[' && c.value != '('
            && c.value != '}' && c.value != ']' && c.value != ')',
        TokenV::EscapedChar(_) => true,
        TokenV::Block(inner) => canonical_text(inner),
        TokenV::Link(inner) => canonical_text(inner),
        TokenV::Paren(inner) => canonical_text(inner),
    }
}

/// Whether every token of the tree is canonical.
pub open spec fn canonical_text(ts: Seq<TokenV>) -> bool
    decreases ts,
{
    ts.len() == 0 || (canonical_token(ts[0]) && canonical_text(ts.drop_first()))
}

/// Matching extends through prepending matching tokens.
pub proof fn lemma_text_matches_cons(a: TokenV, xs: Seq<TokenV>, b: TokenV, ys: Seq<TokenV>)
    requires
        token_matches(a, b),
        text_matches(xs, ys),
    ensures
        text_matches(seq![a] + xs, seq![b] + ys),
{
    let l = seq![a] + xs;
    let r = seq![b] + ys;
    assert(l[0] == a);
    assert(r[0] == b);
    assert(l.drop_first() =~= xs);
    assert(r.drop_first() =~= ys);
}

/// Completeness: an input region that is the literal text of a
/// canonical token tree, followed by the expected closing delimiter,
/// parses successfully — ending exactly past that delimiter, with a
/// token tree that matches the given one structurally.  Together with
/// `lemma_parse_block_reconstructs` this says: balanced input of
/// consistent bracket kind parses, and reconstruction from the result
/// gives the bracket-interior content back exactly.
pub proof fn lemma_parse_block_complete(
    s: Seq<Char>,
    i: int,
    j: int,
    start: Char,
    delim: char,
    tv: Seq<TokenV>,
)
    requires
        canonical_text(tv),
        delim == '}' || delim == ']' || delim == ')',
        0 <= i < j <= s.len(),
        span_values(s.subrange(i, j - 1)) == unparse_text(tv),
        s[j - 1].value == delim,
    ensures
        spec_parse_block(s, i, start, delim) matches Ok(pair) && pair.1 == j && text_matches(
            pair.0,
            tv,
        ),
    decreases j - i, 1int,
{
    reveal_with_fuel(canonical_text, 2);
    reveal_with_fuel(canonical_token, 2);
    crate::chars::lemma_span_values(s.subrange(i, j - 1));
    let region = s.subrange(i, j - 1);
    if tv.len() == 0 {
        assert(region.len() == 0);
        assert(j - 1 == i);
        assert(text_matches(Seq::<TokenV>::empty(), tv));
    } else {
        let t = tv[0];
        let rest = tv.drop_first();
        assert(tv =~= seq![t] + rest);
        lemma_unparse_cons(t, rest);
        let lit = unparse_token(t);
        let m = i + lit.len();
        assert(region.len() == unparse_text(tv).len());
        assert(unparse_text(tv) == lit + unparse_text(rest));
        assert forall|q: int| 0 <= q < lit.len() implies s[i + q].value == lit[q] by {
            assert(region[q] == s[i + q]);
            assert(span_values(region)[q] == s[i + q].value);
            assert(unparse_text(tv)[q] == lit[q]);
        }
        assert(m <= j - 1);
        crate::chars::lemma_span_values(s.subrange(m, j - 1));
        assert forall|q: int| 0 <= q < j - 1 - m implies s.subrange(m, j - 1)[q].value
            == unparse_text(rest)[q] by {
            assert(s.subrange(m, j - 1)[q] == s[m + q]);
            assert(region[m - i + q] == s[m + q]);
            assert(span_values(region)[m - i + q] == s[m + q].value);
            assert(unparse_text(tv)[m - i + q] == unparse_text(rest)[q]);
        }
        assert(span_values(s.subrange(m, j - 1)) =~= unparse_text(rest));
        match t {
            TokenV::Char(c0) => {
                assert(lit.len() == 1);
                assert(s[i + 0].value == lit[0]);
                assert(s[i].value == c0.value);
                lemma_parse_block_complete(s, m, j, start, delim, rest);
                match spec_parse_block(s, m, start, delim) {
                    Ok(pair) => {
                        assert(spec_parse_block(s, i, start, delim) == Ok::<
                            (Seq<TokenV>, int),
                            ParseError,
                        >((seq![TokenV::Char(s[i])] + pair.0, pair.1)));
                        lemma_text_matches_cons(
                            TokenV::Char(s[i]),
                            pair.0,
                            t,
                            rest,
                        );
                    },
                    Err(_) => {},
                }
            },
            TokenV::EscapedChar(c0) => {
                assert(lit.len() == 2);
                assert(s[i + 0].value == lit[0]);
                assert(s[i + 1].value == lit[1]);
                assert(s[i].value == '\\');
                assert(s[i + 1].value == c0.value);
                lemma_parse_block_complete(s, m, j, start, delim, rest);
                match spec_parse_block(s, m, start, delim) {
                    Ok(pair) => {
                        assert(spec_parse_block(s, i, start, delim) == Ok::<
                            (Seq<TokenV>, int),
                            ParseError,
                        >((seq![TokenV::EscapedChar(s[i + 1])] + pair.0, pair.1)));
                        lemma_text_matches_cons(
                            TokenV::EscapedChar(s[i + 1]),
                            pair.0,
                            t,
                            rest,
                        );
                    },
                    Err(_) => {},
                }
            },
            TokenV::Block(inner) => {
                lemma_parse_complete_nested(s, i, j, m, start, delim, t, inner, rest, '{', '}');
            },
            TokenV::Link(inner) => {
                lemma_parse_complete_nested(s, i, j, m, start, delim, t, inner, rest, '[', ']');
            },
            TokenV::Paren(inner) => {
                lemma_parse_complete_nested(s, i, j, m, start, delim, t, inner, rest, '(', ')');
            },
        }
    }
}

/// The nested-block case of `lemma_parse_block_complete`: the region
/// starts with an opening bracket, its inner text's literal, and the
/// matching closer; the inner parse lands exactly on that closer and
/// the scan continues behind it.
#[verifier::rlimit(100)]
proof fn lemma_parse_complete_nested(
    s: Seq<Char>,
    i: int,
    j: int,
    m: int,
    start: Char,
    delim: char,
    t: TokenV,
    inner: Seq<TokenV>,
    rest: Seq<TokenV>,
    open: char,
    close: char,
)
    requires
        (open == '{' && close == '}' && t == TokenV::Block(inner)) || (open == '[' && close
            == ']' && t == TokenV::Link(inner)) || (open == '(' && close == ')' && t
            == TokenV::Paren(inner)),
        canonical_token(t),
        canonical_text(rest),
        delim == '}' || delim == ']' || delim == ')',
        0 <= i < j <= s.len(),
        m == i + unparse_token(t).len(),
        m <= j - 1,
        forall|q: int|
            0 <= q < unparse_token(t).len() ==> s[i + q].value == #[trigger] unparse_token(t)[q],
        span_values(s.subrange(m, j - 1)) == unparse_text(rest),
        s[j - 1].value == delim,
    ensures
        spec_parse_block(s, i, start, delim) matches Ok(pair) && pair.1 == j && text_matches(
            pair.0,
            seq![t] + rest,
        ),
    decreases j - i, 0int,
{
    let lit = unparse_token(t);
    assert(lit == seq![open] + unparse_text(inner) + seq![close]);
    assert(lit.len() == unparse_text(inner).len() + 2);
    assert(s[i + 0].value == lit[0]);
    assert(s[i].value == lit[0]);
    assert(lit[0] == open);
    assert(s[i + (lit.len() - 1)].value == lit[lit.len() - 1]);
    assert(s[m - 1].value == lit[lit.len() - 1]);
    assert(lit[lit.len() - 1] == close);
    assert(closing_of(open) == close);
    crate::chars::lemma_span_values(s.subrange(i + 1, m - 1));
    assert forall|q: int| 0 <= q < m - 1 - (i + 1) implies s.subrange(i + 1, m - 1)[q].value
        == unparse_text(inner)[q] by {
        assert(s.subrange(i + 1, m - 1)[q] == s[i + 1 + q]);
        assert(s[i + 1 + q].value == lit[1 + q]);
        assert(lit[1 + q] == unparse_text(inner)[q]);
    }
    assert(span_values(s.subrange(i + 1, m - 1)) =~= unparse_text(inner));
    lemma_parse_block_complete(s, i + 1, m, s[i], close, inner);
    match spec_parse_block(s, i + 1, s[i], close) {
        Ok(ipair) => {
            assert(ipair.1 == m);
            assert(clamp_pos(s, i, m) == m);
            lemma_parse_block_complete(s, m, j, start, delim, rest);
            match spec_parse_block(s, m, start, delim) {
                Ok(pair) => {
                    let wrapped = wrap_block(s[i].value, ipair.0);
                    assert(spec_parse_block(s, i, start, delim) == Ok::<
                        (Seq<TokenV>, int),
                        ParseError,
                    >((seq![wrapped] + pair.0, pair.1)));
                    assert(token_matches(wrapped, t));
                    lemma_text_matches_cons(wrapped, pair.0, t, rest);
                },
                Err(_) => {},
            }
        },
        Err(_) => {},
    }
}

/// A closing bracket of the wrong kind never parses: it is rejected
/// with the error that cites both the opening character and the
/// offending closer.
pub proof fn lemma_mismatched_bracket(s: Seq<Char>, i: int, start: Char, delim: char)
    requires
        0 <= i < s.len(),
        s[i].value == '}' || s[i].value == ']' || s[i].value == ')',
        s[i].value != delim,
    ensures
        spec_parse_block(s, i, start, delim) == Err::<(Seq<TokenV>, int), ParseError>(
            ParseError::BracketsDoNotMatch(start, s[i]),
        ),
{
}

/// How a single link renders: a link whose content matches a declared
/// name becomes an anchor to that item's identity; one with no match
/// becomes a `no_link` span and contributes exactly one diagnostic
/// line beyond those of its content.
pub proof fn lemma_link_rendering(inner: Seq<TokenV>, doc: DocV)
    ensures
        spec_render_text(inner, 0, Seq::empty(), doc) matches Ok(bpair) ==> match find_name(
            doc.names,
            inner,
        ) {
            Some(idx) => spec_render_text(seq![TokenV::Link(inner)], 0, Seq::empty(), doc)
                == Ok::<(Seq<char>, Seq<Seq<char>>), RenderError>(
                (
                    "<a href=\"#"@ + span_values(doc.items[idx].identity) + "\">"@ + bpair.0
                        + "</a>"@,
                    bpair.1,
                ),
            ),
            None => spec_render_text(seq![TokenV::Link(inner)], 0, Seq::empty(), doc) == Ok::<
                (Seq<char>, Seq<Seq<char>>),
                RenderError,
            >(
                (
                    "<span class=\"no_link\">"@ + bpair.0 + "</span>"@,
                    bpair.1 + seq!["Warning: '"@ + bpair.0 + "' not found"@],
                ),
            ),
        },
{
    let one = seq![TokenV::Link(inner)];
    assert(one[0] == TokenV::Link(inner));
    match spec_render_text(inner, 0, Seq::empty(), doc) {
        Ok(bpair) => {
            assert(spec_render_text(one, 1, Seq::empty(), doc) == Ok::<
                (Seq<char>, Seq<Seq<char>>),
                RenderError,
            >((Seq::empty(), Seq::empty())));
            assert(closers(Seq::<Decoration>::empty()) == Seq::<char>::empty());
            match find_name(doc.names, inner) {
                Some(idx) => {
                    assert("<a href=\"#"@ + span_values(doc.items[idx].identity) + "\">"@
                        + bpair.0 + "</a>"@ + closers(Seq::<Decoration>::empty())
                        + Seq::<char>::empty() =~= "<a href=\"#"@ + span_values(
                        doc.items[idx].identity,
                    ) + "\">"@ + bpair.0 + "</a>"@);
                    assert(bpair.1 + Seq::<Seq<char>>::empty() =~= bpair.1);
                },
                None => {
                    assert("<span class=\"no_link\">"@ + bpair.0 + "</span>"@ + closers(
                        Seq::<Decoration>::empty(),
                    ) + Seq::<char>::empty() =~= "<span class=\"no_link\">"@ + bpair.0
                        + "</span>"@);
                    assert(bpair.1 + seq!["Warning: '"@ + bpair.0 + "' not found"@]
                        + Seq::<Seq<char>>::empty() =~= bpair.1 + seq![
                        "Warning: '"@ + bpair.0 + "' not found"@,
                    ]);
                },
            }
        },
        Err(_) => {},
    }
}

/// Whether a token is a decoration marker: a plain `^` or `_`.
pub open spec fn is_marker(t: TokenV) -> bool {
    match t {
        TokenV::Char(c) => c.value == '^' || c.value == '_',
        _ => false,
    }
}

/// A decoration applies to exactly the one token that follows it: `^t`
/// renders as `<sup>`, the rendering of `t` alone, `</sup>` — and `_t`
/// the same with `<sub>`.
#[verifier::rlimit(100)]
#[verifier::spinoff_prover]
pub proof fn lemma_decoration_wraps_next(c: Char, t: TokenV, doc: DocV)
    requires
        c.value == '^' || c.value == '_',
        !is_marker(t),
    ensures
        spec_render_text(seq![t], 0, Seq::empty(), doc) matches Ok(tp) ==> spec_render_text(
            seq![TokenV::Char(c), t],
            0,
            Seq::empty(),
            doc,
        ) == Ok::<(Seq<char>, Seq<Seq<char>>), RenderError>(
            (
                (if c.value == '^' {
                    "<sup>"@
                } else {
                    "<sub>"@
                }) + tp.0 + (if c.value == '^' {
                    "</sup>"@
                } else {
                    "</sub>"@
                }),
                tp.1,
            ),
        ),
{
    reveal_with_fuel(spec_render_text, 4);
    let two = seq![TokenV::Char(c), t];
    let one = seq![t];
    assert(two[0] == TokenV::Char(c));
    assert(two[1] == t);
    assert(one[0] == t);
    let d: Decoration = if c.value == '^' {
        Decoration::Sup(c)
    } else {
        Decoration::Sub(c)
    };
    let pend = Seq::<Decoration>::empty().push(d);
    assert(pend[0] == d);
    assert(pend.last() == d);
    assert(pend.drop_last() =~= Seq::<Decoration>::empty());
    let close: Seq<char> = if c.value == '^' {
        "</sup>"@
    } else {
        "</sub>"@
    };
    assert(closers(pend) =~= close);
    match spec_render_text(one, 0, Seq::empty(), doc) {
        Ok(tp) => {
            // Both renderings end one past the token with nothing
            // pending, so the tails agree.
            assert(spec_render_text(two, 2, Seq::<Decoration>::empty(), doc) == Ok::<
                (Seq<char>, Seq<Seq<char>>),
                RenderError,
            >((Seq::empty(), Seq::empty())));
            assert(spec_render_text(one, 1, Seq::<Decoration>::empty(), doc) == Ok::<
                (Seq<char>, Seq<Seq<char>>),
                RenderError,
            >((Seq::empty(), Seq::empty())));
            match t {
                TokenV::Char(c2) => {
                    assert(seq![c2.value] + closers(pend) + Seq::<char>::empty() =~= seq![
                        c2.value,
                    ] + close);
                    assert(seq![c2.value] + closers(Seq::<Decoration>::empty())
                        + Seq::<char>::empty() =~= seq![c2.value]);
                    assert((if c.value == '^' {
                        "<sup>"@
                    } else {
                        "<sub>"@
                    }) + (seq![c2.value] + close) =~= (if c.value == '^' {
                        "<sup>"@
                    } else {
                        "<sub>"@
                    }) + seq![c2.value] + close);
                    assert(tp.0 =~= seq![c2.value]);
                },
                TokenV::EscapedChar(c2) => {
                    assert(seq![c2.value] + closers(pend) + Seq::<char>::empty() =~= seq![
                        c2.value,
                    ] + close);
                    assert(seq![c2.value] + closers(Seq::<Decoration>::empty())
                        + Seq::<char>::empty() =~= seq![c2.value]);
                    assert((if c.value == '^' {
                        "<sup>"@
                    } else {
                        "<sub>"@
                    }) + (seq![c2.value] + close) =~= (if c.value == '^' {
                        "<sup>"@
                    } else {
                        "<sub>"@
                    }) + seq![c2.value] + close);
                    assert(tp.0 =~= seq![c2.value]);
                },
                TokenV::Block(inner) => {
                    match spec_render_text(inner, 0, Seq::empty(), doc) {
                        Ok(bp) => {
                            assert(bp.0 + closers(pend) + Seq::<char>::empty() =~= bp.0 + close);
                            assert(bp.0 + closers(Seq::<Decoration>::empty())
                                + Seq::<char>::empty() =~= bp.0);
                            assert(tp.0 =~= bp.0);
                            assert(bp.1 + Seq::<Seq<char>>::empty() =~= bp.1);
                            assert((if c.value == '^' {
                                "<sup>"@
                            } else {
                                "<sub>"@
                            }) + (bp.0 + close) =~= (if c.value == '^' {
                                "<sup>"@
                            } else {
                                "<sub>"@
                            }) + tp.0 + close);
                        },
                        Err(_) => {},
                    }
                },
                TokenV::Paren(inner) => {
                    match spec_render_text(inner, 0, Seq::empty(), doc) {
                        Ok(bp) => {
                            assert("("@ + bp.0 + ")"@ + closers(pend) + Seq::<char>::empty()
                                =~= "("@ + bp.0 + ")"@ + close);
                            assert("("@ + bp.0 + ")"@ + closers(Seq::<Decoration>::empty())
                                + Seq::<char>::empty() =~= "("@ + bp.0 + ")"@);
                            assert(tp.0 =~= "("@ + bp.0 + ")"@);
                            assert(bp.1 + Seq::<Seq<char>>::empty() =~= bp.1);
                            assert((if c.value == '^' {
                                "<sup>"@
                            } else {
                                "<sub>"@
                            }) + ("("@ + bp.0 + ")"@ + close) =~= (if c.value == '^' {
                                "<sup>"@
                            } else {
                                "<sub>"@
                            }) + tp.0 + close);
                        },
                        Err(_) => {},
                    }
                },
                TokenV::Link(inner) => {
                    match spec_render_text(inner, 0, Seq::empty(), doc) {
                        Ok(bp) => {
                            match find_name(doc.names, inner) {
                                Some(idx) => {
                                    let core = "<a href=\"#"@ + span_values(
                                        doc.items[idx].identity,
                                    ) + "\">"@ + bp.0 + "</a>"@;
                                    assert(core + closers(pend) + Seq::<char>::empty() =~= core
                                        + close);
                                    assert(core + closers(Seq::<Decoration>::empty())
                                        + Seq::<char>::empty() =~= core);
                                    assert(tp.0 =~= core);
                                    assert((if c.value == '^' {
                                        "<sup>"@
                                    } else {
                                        "<sub>"@
                                    }) + (core + close) =~= (if c.value == '^' {
                                        "<sup>"@
                                    } else {
                                        "<sub>"@
                                    }) + tp.0 + close);
                                },
                                None => {
                                    let core = "<span class=\"no_link\">"@ + bp.0 + "</span>"@;
                                    assert(core + closers(pend) + Seq::<char>::empty() =~= core
                                        + close);
                                    assert(core + closers(Seq::<Decoration>::empty())
                                        + Seq::<char>::empty() =~= core);
                                    assert(tp.0 =~= core);
                                    assert((if c.value == '^' {
                                        "<sup>"@
                                    } else {
                                        "<sub>"@
                                    }) + (core + close) =~= (if c.value == '^' {
                                        "<sup>"@
                                    } else {
                                        "<sub>"@
                                    }) + tp.0 + close);
                                },
                            }
                        },
                        Err(_) => {},
                    }
                },
            }
        },
        Err(_) => {},
    }
}

/// A text that ends in a bare decoration marker fails with the
/// decoration-target error citing that marker.
pub proof fn lemma_trailing_marker_fails(c: Char, doc: DocV)
    requires
        c.value == '^' || c.value == '_',
    ensures
        spec_render_text(seq![TokenV::Char(c)], 0, Seq::empty(), doc) == Err::<
            (Seq<char>, Seq<Seq<char>>),
            RenderError,
        >(RenderError::NoDecorationTarget(c)),
{
    reveal_with_fuel(spec_render_text, 3);
    let one = seq![TokenV::Char(c)];
    assert(one[0] == TokenV::Char(c));
    let d: Decoration = if c.value == '^' {
        Decoration::Sup(c)
    } else {
        Decoration::Sub(c)
    };
    let pend = Seq::<Decoration>::empty().push(d);
    assert(pend[0] == d);
    assert(pend.len() == 1);
    assert(spec_render_text(one, 1, pend, doc) == Err::<
        (Seq<char>, Seq<Seq<char>>),
        RenderError,
    >(RenderError::NoDecorationTarget(c)));
}

} // verus!
