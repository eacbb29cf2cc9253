//! The HTML renderer.
//!
//! Serializes a document to HTML: a fixed shell, the header wrappers,
//! then one block per item with its anchor, name, group list and
//! descriptions.  `Link` tokens are resolved against the document's name
//! index — a hit becomes an anchor to the item's identity, a miss
//! degrades to a `no_link` span plus one diagnostic line.  A `^` or `_`
//! character decorates exactly the one token that follows it.
//!
//! Output is buffered: the renderer returns the HTML characters and the
//! diagnostic lines; nothing is written anywhere until the whole
//! document has rendered, so a fatal error leaves no partial file.

use vstd::prelude::*;
use crate::chars::{Char, span_values};
use crate::text::{Text, Token, TokenV, text_matches};
use crate::document::{Document, DocV, ItemV, doc_wf};

verus! {

/// Everything rendering can reject.
#[derive(Clone, Copy, Debug)]
pub enum RenderError {
    /// An item reached the renderer with no name declared.
    NoName,
    /// A text ended with this decoration marker still waiting for a
    /// token to decorate.
    NoDecorationTarget(Char),
}

/// A decoration marker that has been opened and waits for its target.
#[derive(Clone, Copy, Debug)]
pub enum Decoration {
    /// A pending `^`, with the marker character for error reporting.
    Sup(Char),
    /// A pending `_`, with the marker character for error reporting.
    Sub(Char),
}

/// The marker character a pending decoration was opened by.
pub open spec fn deco_char(d: Decoration) -> Char {
    match d {
        Decoration::Sup(c) => c,
        Decoration::Sub(c) => c,
    }
}

/// The closing tags for the pending decorations, most recent first.
pub open spec fn closers(pending: Seq<Decoration>) -> Seq<char>
    decreases pending.len(),
{
    if pending.len() == 0 {
        Seq::empty()
    } else {
        (match pending.last() {
            Decoration::Sup(_) => "</sup>"@,
            Decoration::Sub(_) => "</sub>"@,
        }) + closers(pending.drop_last())
    }
}

/// The item index the name index resolves a text to: the most recently
/// registered structurally matching entry, as a later registration of
/// the same name shadows an earlier one.
pub open spec fn find_name_back(names: Seq<(Seq<TokenV>, int)>, tv: Seq<TokenV>, k: int) -> Option<
    int,
>
    decreases k,
{
    if k <= 0 || k > names.len() {
        None
    } else if text_matches(names[k - 1].0, tv) {
        Some(names[k - 1].1)
    } else {
        find_name_back(names, tv, k - 1)
    }
}

/// The item index a link text resolves to, if any.
pub open spec fn find_name(names: Seq<(Seq<TokenV>, int)>, tv: Seq<TokenV>) -> Option<int> {
    find_name_back(names, tv, names.len() as int)
}

/// What rendering the tokens of a text from index `i` emits, given the
/// decorations already pending: the HTML characters and the diagnostic
/// lines, or the exact error.
///
/// A `^` or `_` character opens its tag and becomes pending; after any
/// other token is emitted, all pending decorations close in reverse
/// order.  A text that ends with pending decorations is an error citing
/// the first unanswered marker.
pub open spec fn spec_render_text(
    ts: Seq<TokenV>,
    i: int,
    pending: Seq<Decoration>,
    doc: DocV,
) -> Result<(Seq<char>, Seq<Seq<char>>), RenderError>
    decreases ts, ts.len() - i,
{
    if i < 0 || i >= ts.len() {
        if pending.len() > 0 {
            Err(RenderError::NoDecorationTarget(deco_char(pending[0])))
        } else {
            Ok((Seq::empty(), Seq::empty()))
        }
    } else {
        match ts[i] {
            TokenV::Char(c) => {
                if c.value == '^' {
                    match spec_render_text(ts, i + 1, pending.push(Decoration::Sup(c)), doc) {
                        Ok((h, w)) => Ok(("<sup>"@ + h, w)),
                        Err(e) => Err(e),
                    }
                } else if c.value == '_' {
                    match spec_render_text(ts, i + 1, pending.push(Decoration::Sub(c)), doc) {
                        Ok((h, w)) => Ok(("<sub>"@ + h, w)),
                        Err(e) => Err(e),
                    }
                } else {
                    match spec_render_text(ts, i + 1, Seq::empty(), doc) {
                        Ok((h, w)) => Ok((seq![c.value] + closers(pending) + h, w)),
                        Err(e) => Err(e),
                    }
                }
            },
            TokenV::EscapedChar(c) => match spec_render_text(ts, i + 1, Seq::empty(), doc) {
                Ok((h, w)) => Ok((seq![c.value] + closers(pending) + h, w)),
                Err(e) => Err(e),
            },
            TokenV::Block(inner) => match spec_render_text(inner, 0, Seq::empty(), doc) {
                Ok((hb, wb)) => match spec_render_text(ts, i + 1, Seq::empty(), doc) {
                    Ok((h, w)) => Ok((hb + closers(pending) + h, wb + w)),
                    Err(e) => Err(e),
                },
                Err(e) => Err(e),
            },
            TokenV::Paren(inner) => match spec_render_text(inner, 0, Seq::empty(), doc) {
                Ok((hb, wb)) => match spec_render_text(ts, i + 1, Seq::empty(), doc) {
                    Ok((h, w)) => Ok(("("@ + hb + ")"@ + closers(pending) + h, wb + w)),
                    Err(e) => Err(e),
                },
                Err(e) => Err(e),
            },
            TokenV::Link(inner) => match spec_render_text(inner, 0, Seq::empty(), doc) {
                Ok((hb, wb)) => {
                    let rest = spec_render_text(ts, i + 1, Seq::empty(), doc);
                    match find_name(doc.names, inner) {
                        Some(idx) => match rest {
                            Ok((h, w)) => Ok(
                                (
                                    "<a href=\"#"@ + span_values(doc.items[idx].identity)
                                        + "\">"@ + hb + "</a>"@ + closers(pending) + h,
                                    wb + w,
                                ),
                            ),
                            Err(e) => Err(e),
                        },
                        None => match rest {
                            Ok((h, w)) => Ok(
                                (
                                    "<span class=\"no_link\">"@ + hb + "</span>"@ + closers(
                                        pending,
                                    ) + h,
                                    wb + seq!["Warning: '"@ + hb + "' not found"@] + w,
                                ),
                            ),
                            Err(e) => Err(e),
                        },
                    }
                },
                Err(e) => Err(e),
            },
        }
    }
}

/// The images of a list of diagnostic lines.
pub open spec fn warns_view(ws: Seq<Vec<char>>) -> Seq<Seq<char>> {
    Seq::new(
        ws.len(),
        |i: int|
            if 0 <= i < ws.len() {
                ws[i]@
            } else {
                arbitrary()
            },
    )
}

/// Appending one line appends its image.
pub proof fn lemma_warns_view_push(ws: Seq<Vec<char>>, w: Vec<char>)
    ensures
        warns_view(ws.push(w)) == warns_view(ws) + seq![w@],
{
    assert(warns_view(ws.push(w)) =~= warns_view(ws) + seq![w@]);
}

/// A hit of the name lookup is an index one of the entries carries.
pub proof fn lemma_find_name_back_range(
    names: Seq<(Seq<TokenV>, int)>,
    tv: Seq<TokenV>,
    k: int,
    n: int,
)
    requires
        forall|i: int| 0 <= i < names.len() ==> 0 <= (#[trigger] names[i]).1 < n,
    ensures
        find_name_back(names, tv, k) matches Some(idx) ==> 0 <= idx < n,
    decreases k,
{
    if 0 < k <= names.len() && !text_matches(names[k - 1].0, tv) {
        lemma_find_name_back_range(names, tv, k - 1, n);
    }
}

/// Appends the characters of a string slice to the output.
fn push_str(out: &mut Vec<char>, s: &str)
    ensures
        final(out)@ == old(out)@ + s@,
{
    let n = s.unicode_len();
    let mut i: usize = 0;
    while i < n
        invariant
            n == s@.len(),
            i <= n,
            out@ == old(out)@ + s@.subrange(0, i as int),
        decreases n - i,
    {
        let c = s.get_char(i);
        out.push(c);
        proof {
            assert(old(out)@ + s@.subrange(0, i + 1 as int) =~= (old(out)@ + s@.subrange(
                0,
                i as int,
            )).push(s@[i as int]));
        }
        i += 1;
    }
    proof {
        assert(s@.subrange(0, n as int) =~= s@);
    }
}

/// Appends a copied character list to the output.
fn append_chars(out: &mut Vec<char>, src: &Vec<char>)
    ensures
        final(out)@ == old(out)@ + src@,
{
    let n = src.len();
    let mut i: usize = 0;
    while i < n
        invariant
            n == src@.len(),
            i <= n,
            out@ == old(out)@ + src@.subrange(0, i as int),
        decreases n - i,
    {
        out.push(src[i]);
        proof {
            assert(old(out)@ + src@.subrange(0, i + 1 as int) =~= (old(out)@ + src@.subrange(
                0,
                i as int,
            )).push(src@[i as int]));
        }
        i += 1;
    }
    proof {
        assert(src@.subrange(0, n as int) =~= src@);
    }
}

/// Appends the character values of a positioned span to the output.
fn push_span_values(out: &mut Vec<char>, sp: &Vec<Char>)
    ensures
        final(out)@ == old(out)@ + span_values(sp@),
{
    let n = sp.len();
    let mut i: usize = 0;
    while i < n
        invariant
            n == sp@.len(),
            i <= n,
            out@ == old(out)@ + span_values(sp@).subrange(0, i as int),
        decreases n - i,
    {
        out.push(sp[i].value);
        proof {
            assert(span_values(sp@)[i as int] == sp@[i as int].value);
            assert(old(out)@ + span_values(sp@).subrange(0, i + 1 as int) =~= (old(out)@
                + span_values(sp@).subrange(0, i as int)).push(sp@[i as int].value));
        }
        i += 1;
    }
    proof {
        assert(span_values(sp@).subrange(0, n as int) =~= span_values(sp@));
    }
}

/// Closes every pending decoration, most recent first, and clears the
/// pending list.
fn close_pending(pending: &mut Vec<Decoration>, out: &mut Vec<char>)
    ensures
        final(out)@ == old(out)@ + closers(old(pending)@),
        final(pending)@ == Seq::<Decoration>::empty(),
{
    let ghost orig = pending@;
    let ghost out0 = out@;
    while pending.len() > 0
        invariant
            out0 + closers(orig) == out@ + closers(pending@),
        decreases pending@.len(),
    {
        let ghost before = pending@;
        let d = pending.pop();
        let ghost out_pre = out@;
        match d {
            Some(Decoration::Sup(_)) => {
                push_str(out, "</sup>");
                proof {
                    assert(out_pre + ("</sup>"@ + closers(pending@)) =~= (out_pre + "</sup>"@)
                        + closers(pending@));
                }
            },
            Some(Decoration::Sub(_)) => {
                push_str(out, "</sub>");
                proof {
                    assert(out_pre + ("</sub>"@ + closers(pending@)) =~= (out_pre + "</sub>"@)
                        + closers(pending@));
                }
            },
            None => {},
        }
    }
    proof {
        assert(out@ + closers(pending@) =~= out@);
    }
}

/// Resolves a link text against the document's name index, preferring
/// the most recently registered matching entry.
fn lookup_name(doc: &Document, t: &Text) -> (r: Option<usize>)
    ensures
        match r {
            Some(k) => find_name(doc@.names, t@) == Some(k as int),
            None => find_name(doc@.names, t@) is None,
        },
{
    let ghost nv = doc@.names;
    let mut k: usize = doc.names.len();
    proof {
        crate::document::lemma_names_view(doc.names@);
    }
    while k > 0
        invariant
            nv == doc@.names,
            k <= doc.names@.len(),
            nv.len() == doc.names@.len(),
            find_name(nv, t@) == find_name_back(nv, t@, k as int),
        decreases k,
    {
        let hit = doc.names[k - 1].0.matches(t);
        proof {
            crate::document::lemma_names_view(doc.names@);
            assert(nv[k - 1].0 == doc.names@[k - 1].0@);
            assert(nv[k - 1].1 == doc.names@[k - 1].1 as int);
        }
        if hit {
            return Some(doc.names[k - 1].1);
        }
        k -= 1;
    }
    None
}

impl Text {
    /// Renders this text onto the output buffer, resolving links
    /// against the document and applying decoration markers to the one
    /// token that follows each.  Appends one diagnostic line per
    /// unresolved link.  What is appended to the output and to the
    /// diagnostics, and every error, is exactly `spec_render_text`.
    #[verifier::rlimit(100)]
    pub fn print(
        &self,
        doc: &Document,
        out: &mut Vec<char>,
        warnings: &mut Vec<Vec<char>>,
    ) -> (r: Result<(), RenderError>)
        requires
            doc_wf(doc@),
        ensures
            match spec_render_text(self@, 0, Seq::empty(), doc@) {
                Ok(pair) => r is Ok && final(out)@ == old(out)@ + pair.0 && warns_view(
                    final(warnings)@,
                ) == warns_view(old(warnings)@) + pair.1,
                Err(e) => r matches Err(e2) && e2 == e,
            },
        decreases self,
    {
        let ghost full = spec_render_text(self@, 0, Seq::empty(), doc@);
        let ghost out0 = out@;
        let ghost w0 = warns_view(warnings@);
        let ghost mut emitted: Seq<char> = Seq::empty();
        let ghost mut emw: Seq<Seq<char>> = Seq::empty();
        let mut pending: Vec<Decoration> = Vec::new();
        let mut i: usize = 0;
        proof {
            crate::text::lemma_text_view(self);
            assert(emitted + Seq::<char>::empty() =~= emitted);
            match spec_render_text(self@, 0, Seq::<Decoration>::empty(), doc@) {
                Ok(pair) => {
                    assert(emitted + pair.0 =~= pair.0);
                    assert(emw + pair.1 =~= pair.1);
                },
                Err(_) => {},
            }
        }
        while i < self.text.len()
            invariant
                doc_wf(doc@),
                self@.len() == self.text@.len(),
                i <= self.text@.len(),
                out@ == out0 + emitted,
                warns_view(warnings@) == w0 + emw,
                w0 == warns_view(old(warnings)@),
                out0 == old(out)@,
                full == spec_render_text(self@, 0, Seq::<Decoration>::empty(), doc@),
                match spec_render_text(self@, i as int, pending@, doc@) {
                    Ok(pair) => full == Ok::<(Seq<char>, Seq<Seq<char>>), RenderError>(
                        (emitted + pair.0, emw + pair.1),
                    ),
                    Err(e) => full == Err::<(Seq<char>, Seq<Seq<char>>), RenderError>(e),
                },
            decreases self.text@.len() - i,
        {
            proof {
                crate::text::lemma_text_view(self);
                assert(self@[i as int] == self.text@[i as int]@);
            }
            let ghost pend0 = pending@;
            let ghost e0 = emitted;
            let ghost ew0 = emw;
            let tok = &self.text[i];
            match tok {
                Token::Char(c) => {
                    if c.value == '^' {
                        push_str(out, "<sup>");
                        pending.push(Decoration::Sup(*c));
                        proof {
                            emitted = e0 + "<sup>"@;
                            assert(out@ =~= out0 + emitted);
                            match spec_render_text(self@, i + 1, pending@, doc@) {
                                Ok(pair) => {
                                    assert(e0 + ("<sup>"@ + pair.0) =~= emitted + pair.0);
                                },
                                Err(_) => {},
                            }
                        }
                    } else if c.value == '_' {
                        push_str(out, "<sub>");
                        pending.push(Decoration::Sub(*c));
                        proof {
                            emitted = e0 + "<sub>"@;
                            assert(out@ =~= out0 + emitted);
                            match spec_render_text(self@, i + 1, pending@, doc@) {
                                Ok(pair) => {
                                    assert(e0 + ("<sub>"@ + pair.0) =~= emitted + pair.0);
                                },
                                Err(_) => {},
                            }
                        }
                    } else {
                        out.push(c.value);
                        close_pending(&mut pending, out);
                        proof {
                            emitted = e0 + (seq![c.value] + closers(pend0));
                            assert(out@ =~= out0 + emitted);
                            match spec_render_text(self@, i + 1, pending@, doc@) {
                                Ok(pair) => {
                                    assert(e0 + ((seq![c.value] + closers(pend0)) + pair.0)
                                        =~= emitted + pair.0);
                                },
                                Err(_) => {},
                            }
                        }
                    }
                },
                Token::EscapedChar(c) => {
                    out.push(c.value);
                    close_pending(&mut pending, out);
                    proof {
                        emitted = e0 + (seq![c.value] + closers(pend0));
                        assert(out@ =~= out0 + emitted);
                        match spec_render_text(self@, i + 1, pending@, doc@) {
                            Ok(pair) => {
                                assert(e0 + ((seq![c.value] + closers(pend0)) + pair.0)
                                    =~= emitted + pair.0);
                            },
                            Err(_) => {},
                        }
                    }
                },
                Token::Block(t) => {
                    let sub = t.print(doc, out, warnings);
                    match sub {
                        Err(e) => {
                            return Err(e);
                        },
                        Ok(_) => {},
                    }
                    close_pending(&mut pending, out);
                    proof {
                        match spec_render_text(t@, 0, Seq::<Decoration>::empty(), doc@) {
                            Ok(bpair) => {
                                emitted = e0 + (bpair.0 + closers(pend0));
                                emw = ew0 + bpair.1;
                                assert(out@ =~= out0 + emitted);
                                match spec_render_text(self@, i + 1, pending@, doc@) {
                                    Ok(pair) => {
                                        assert(e0 + ((bpair.0 + closers(pend0)) + pair.0)
                                            =~= emitted + pair.0);
                                        assert(ew0 + (bpair.1 + pair.1) =~= emw + pair.1);
                                    },
                                    Err(_) => {},
                                }
                            },
                            Err(_) => {},
                        }
                    }
                },
                Token::Paren(t) => {
                    push_str(out, "(");
                    let sub = t.print(doc, out, warnings);
                    match sub {
                        Err(e) => {
                            return Err(e);
                        },
                        Ok(_) => {},
                    }
                    push_str(out, ")");
                    close_pending(&mut pending, out);
                    proof {
                        match spec_render_text(t@, 0, Seq::<Decoration>::empty(), doc@) {
                            Ok(bpair) => {
                                emitted = e0 + ("("@ + bpair.0 + ")"@ + closers(pend0));
                                emw = ew0 + bpair.1;
                                assert(out@ =~= out0 + emitted);
                                match spec_render_text(self@, i + 1, pending@, doc@) {
                                    Ok(pair) => {
                                        assert(e0 + (("("@ + bpair.0 + ")"@ + closers(pend0))
                                            + pair.0) =~= emitted + pair.0);
                                        assert(ew0 + (bpair.1 + pair.1) =~= emw + pair.1);
                                    },
                                    Err(_) => {},
                                }
                            },
                            Err(_) => {},
                        }
                    }
                },
                Token::Link(t) => {
                    let mut tmp: Vec<char> = Vec::new();
                    let sub = t.print(doc, &mut tmp, warnings);
                    match sub {
                        Err(e) => {
                            return Err(e);
                        },
                        Ok(_) => {},
                    }
                    proof {
                        match spec_render_text(t@, 0, Seq::<Decoration>::empty(), doc@) {
                            Ok(bpair) => {
                                assert(tmp@ =~= bpair.0);
                            },
                            Err(_) => {},
                        }
                    }
                    let found = lookup_name(doc, t);
                    match found {
                        Some(idx) => {
                            proof {
                                lemma_find_name_back_range(
                                    doc@.names,
                                    t@,
                                    doc@.names.len() as int,
                                    doc@.items.len() as int,
                                );
                                crate::document::lemma_items_view(doc.items@);
                                assert(doc@.items[idx as int] == doc.items@[idx as int]@);
                            }
                            push_str(out, "<a href=\"#");
                            push_span_values(out, &doc.items[idx].identity);
                            push_str(out, "\">");
                            append_chars(out, &tmp);
                            push_str(out, "</a>");
                            close_pending(&mut pending, out);
                            proof {
                                match spec_render_text(t@, 0, Seq::<Decoration>::empty(), doc@) {
                                    Ok(bpair) => {
                                        let piece = "<a href=\"#"@ + span_values(
                                            doc@.items[idx as int].identity,
                                        ) + "\">"@ + bpair.0 + "</a>"@ + closers(pend0);
                                        emitted = e0 + piece;
                                        emw = ew0 + bpair.1;
                                        assert(out@ =~= out0 + emitted);
                                        match spec_render_text(self@, i + 1, pending@, doc@) {
                                            Ok(pair) => {
                                                assert(e0 + (piece + pair.0) =~= emitted + pair.0);
                                                assert(ew0 + (bpair.1 + pair.1) =~= emw + pair.1);
                                            },
                                            Err(_) => {},
                                        }
                                    },
                                    Err(_) => {},
                                }
                            }
                        },
                        None => {
                            let mut line: Vec<char> = Vec::new();
                            push_str(&mut line, "Warning: '");
                            append_chars(&mut line, &tmp);
                            push_str(&mut line, "' not found");
                            let ghost linev = line@;
                            let ghost warns_mid = warnings@;
                            warnings.push(line);
                            push_str(out, "<span class=\"no_link\">");
                            append_chars(out, &tmp);
                            push_str(out, "</span>");
                            close_pending(&mut pending, out);
                            proof {
                                lemma_warns_view_push(warns_mid, warnings@[warns_mid.len() as int]);
                                match spec_render_text(t@, 0, Seq::<Decoration>::empty(), doc@) {
                                    Ok(bpair) => {
                                        let warnline = "Warning: '"@ + bpair.0 + "' not found"@;
                                        assert(linev =~= warnline);
                                        let piece = "<span class=\"no_link\">"@ + bpair.0
                                            + "</span>"@ + closers(pend0);
                                        emitted = e0 + piece;
                                        emw = ew0 + (bpair.1 + seq![warnline]);
                                        assert(out@ =~= out0 + emitted);
                                        assert(warns_view(warnings@) =~= w0 + emw);
                                        match spec_render_text(self@, i + 1, pending@, doc@) {
                                            Ok(pair) => {
                                                assert(e0 + (piece + pair.0) =~= emitted + pair.0);
                                                assert(ew0 + ((bpair.1 + seq![warnline]) + pair.1)
                                                    =~= emw + pair.1);
                                            },
                                            Err(_) => {},
                                        }
                                    },
                                    Err(_) => {},
                                }
                            }
                        },
                    }
                },
            }
            i += 1;
        }
        if pending.len() > 0 {
            let first = pending[0];
            match first {
                Decoration::Sup(c) => {
                    return Err(RenderError::NoDecorationTarget(c));
                },
                Decoration::Sub(c) => {
                    return Err(RenderError::NoDecorationTarget(c));
                },
            }
        }
        proof {
            match spec_render_text(self@, self.text@.len() as int, pending@, doc@) {
                Ok(pair) => {
                    assert(emitted + pair.0 =~= emitted);
                    assert(emw + pair.1 =~= emw);
                },
                Err(_) => {},
            }
        }
        Ok(())
    }
}

/// What rendering one header wrapper emits: the tag around its
/// rendered content.
pub open spec fn spec_render_header(tag: Seq<Char>, tv: Seq<TokenV>, doc: DocV) -> Result<
    (Seq<char>, Seq<Seq<char>>),
    RenderError,
> {
    match spec_render_text(tv, 0, Seq::empty(), doc) {
        Ok((h, w)) => Ok(
            ("<"@ + span_values(tag) + ">"@ + h + "</"@ + span_values(tag) + ">"@, w),
        ),
        Err(e) => Err(e),
    }
}

/// What rendering the headers from index `i` on emits.
pub open spec fn spec_render_headers(
    hs: Seq<(Seq<Char>, Seq<TokenV>)>,
    i: int,
    doc: DocV,
) -> Result<(Seq<char>, Seq<Seq<char>>), RenderError>
    decreases hs.len() - i,
{
    if i < 0 || i >= hs.len() {
        Ok((Seq::empty(), Seq::empty()))
    } else {
        match spec_render_header(hs[i].0, hs[i].1, doc) {
            Ok((h, w)) => match spec_render_headers(hs, i + 1, doc) {
                Ok((hr, wr)) => Ok((h + hr, w + wr)),
                Err(e) => Err(e),
            },
            Err(e) => Err(e),
        }
    }
}

/// The group paragraph's content from position `j` on: the interned
/// spans of the item's group indices, joined by the separator glyph.
pub open spec fn spec_render_groups(gs: Seq<int>, j: int, doc: DocV) -> Seq<char>
    decreases gs.len() - j,
{
    if j < 0 || j >= gs.len() {
        Seq::empty()
    } else {
        (if j != 0 {
            "・"@
        } else {
            Seq::empty()
        }) + span_values(doc.groups[gs[j]]) + spec_render_groups(gs, j + 1, doc)
    }
}

/// What rendering the descriptions from index `i` on emits: each in its
/// own paragraph.
pub open spec fn spec_render_descs(ds: Seq<Seq<TokenV>>, i: int, doc: DocV) -> Result<
    (Seq<char>, Seq<Seq<char>>),
    RenderError,
>
    decreases ds.len() - i,
{
    if i < 0 || i >= ds.len() {
        Ok((Seq::empty(), Seq::empty()))
    } else {
        match spec_render_text(ds[i], 0, Seq::empty(), doc) {
            Ok((h, w)) => match spec_render_descs(ds, i + 1, doc) {
                Ok((hr, wr)) => Ok(("<p class=\"desc\">"@ + h + "</p>"@ + hr, w + wr)),
                Err(e) => Err(e),
            },
            Err(e) => Err(e),
        }
    }
}

/// What rendering one item emits: the anchor paragraph keyed by the
/// identity, the rendered name (an item with no name is a fatal error),
/// the group paragraph, and one paragraph per description.
pub open spec fn spec_render_item(it: ItemV, doc: DocV) -> Result<
    (Seq<char>, Seq<Seq<char>>),
    RenderError,
> {
    match it.name {
        None => Err(RenderError::NoName),
        Some(n) => match spec_render_text(n, 0, Seq::empty(), doc) {
            Ok((hn, wn)) => match spec_render_descs(it.descs, 0, doc) {
                Ok((hd, wd)) => Ok(
                    (
                        "<div class=\"item\"><div class=\"head\"><p class=\"name\" id=\""@
                            + span_values(it.identity) + "\">"@ + hn + "</p><p class=\"group\">"@
                            + spec_render_groups(it.groups, 0, doc)
                            + "</p></div><div class=\"descs\">"@ + hd + "</div></div>"@,
                        wn + wd,
                    ),
                ),
                Err(e) => Err(e),
            },
            Err(e) => Err(e),
        },
    }
}

/// What rendering the items from index `i` on emits.
pub open spec fn spec_render_items(items: Seq<ItemV>, i: int, doc: DocV) -> Result<
    (Seq<char>, Seq<Seq<char>>),
    RenderError,
>
    decreases items.len() - i,
{
    if i < 0 || i >= items.len() {
        Ok((Seq::empty(), Seq::empty()))
    } else {
        match spec_render_item(items[i], doc) {
            Ok((h, w)) => match spec_render_items(items, i + 1, doc) {
                Ok((hr, wr)) => Ok((h + hr, w + wr)),
                Err(e) => Err(e),
            },
            Err(e) => Err(e),
        }
    }
}

/// The fixed document shell up to and including the date line's label,
/// with the date spliced in.
pub open spec fn shell_prefix(date: Seq<char>) -> Seq<char> {
    "<!DOCTYPE html><html><head><meta charset=\"utf-8\"><title>化合物から見る代謝経路</title><link rel=\"stylesheet\" type=\"text/css\" href=\"style.css\"></head><body><header><h1>化合物から見る代謝経路</h1><p>最終更新日："@
        + date + "</p></header>"@
}

/// What rendering a whole document emits: the shell with the given date
/// line, the header wrappers, one block per item, and the closing body
/// tag — or the first error, in rendering order.
pub open spec fn spec_render_doc(doc: DocV, date: Seq<char>) -> Result<
    (Seq<char>, Seq<Seq<char>>),
    RenderError,
> {
    match spec_render_headers(doc.headers, 0, doc) {
        Ok((hh, wh)) => match spec_render_items(doc.items, 0, doc) {
            Ok((hi, wi)) => Ok((shell_prefix(date) + hh + hi + "</body>"@, wh + wi)),
            Err(e) => Err(e),
        },
        Err(e) => Err(e),
    }
}

/// Renders one item onto the output buffer.
#[verifier::rlimit(100)]
fn render_item(doc: &Document, k: usize, out: &mut Vec<char>, warnings: &mut Vec<Vec<char>>) -> (r:
    Result<(), RenderError>)
    requires
        doc_wf(doc@),
        k < doc@.items.len(),
    ensures
        match spec_render_item(doc@.items[k as int], doc@) {
            Ok(pair) => r is Ok && final(out)@ == old(out)@ + pair.0 && warns_view(
                final(warnings)@,
            ) == warns_view(old(warnings)@) + pair.1,
            Err(e) => r matches Err(e2) && e2 == e,
        },
{
    proof {
        crate::document::lemma_items_view(doc.items@);
    }
    let ghost item_v = doc@.items[k as int];
    let ghost out0 = out@;
    let ghost w0 = warns_view(warnings@);
    let ghost head_s = "<div class=\"item\"><div class=\"head\"><p class=\"name\" id=\""@
        + span_values(item_v.identity) + "\">"@;
    let it = &doc.items[k];
    push_str(out, "<div class=\"item\"><div class=\"head\"><p class=\"name\" id=\"");
    push_span_values(out, &it.identity);
    push_str(out, "\">");
    proof {
        assert(out@ =~= out0 + head_s);
    }
    let nref = match &it.name {
        None => {
            return Err(RenderError::NoName);
        },
        Some(n) => n,
    };
    let ghost nv = nref@;
    let sub = nref.print(doc, out, warnings);
    match sub {
        Err(e) => {
            return Err(e);
        },
        Ok(_) => {},
    }
    let ghost npair = spec_render_text(nv, 0, Seq::<Decoration>::empty(), doc@)->Ok_0;
    push_str(out, "</p><p class=\"group\">");
    proof {
        assert(out@ =~= out0 + head_s + npair.0 + "</p><p class=\"group\">"@);
    }
    let ghost cpg = out@;
    let ghost gv = item_v.groups;
    let ghost mut gem: Seq<char> = Seq::empty();
    proof {
        crate::document::lemma_group_indices_view(it.groups@);
        assert(gv == crate::document::group_indices_view(it.groups@));
        assert(cpg + gem =~= cpg);
        assert(gem + spec_render_groups(gv, 0, doc@) =~= spec_render_groups(gv, 0, doc@));
    }
    let mut j: usize = 0;
    while j < it.groups.len()
        invariant
            doc_wf(doc@),
            gv == crate::document::group_indices_view(it.groups@),
            k < doc@.items.len(),
            doc@.items[k as int] == item_v,
            item_v.groups == gv,
            j <= it.groups@.len(),
            gv.len() == it.groups@.len(),
            out@ == cpg + gem,
            spec_render_groups(gv, 0, doc@) == gem + spec_render_groups(gv, j as int, doc@),
        decreases it.groups@.len() - j,
    {
        let ghost gem0 = gem;
        if j != 0 {
            push_str(out, "・");
            proof {
                gem = gem + "・"@;
                assert(out@ =~= cpg + gem);
            }
        }
        let gi = it.groups[j];
        proof {
            crate::document::lemma_group_indices_view(it.groups@);
            assert(gv[j as int] == it.groups@[j as int] as int);
            assert(crate::document::item_wf(item_v, doc@.groups.len() as int));
            assert(0 <= gv[j as int] < doc@.groups.len());
            crate::document::lemma_groups_view(doc.groups@);
            assert(doc@.groups[gv[j as int]] == doc.groups@[gi as int]@);
        }
        push_span_values(out, &doc.groups[gi]);
        proof {
            gem = gem + span_values(doc.groups@[gi as int]@);
            assert(out@ =~= cpg + gem);
            let sep: Seq<char> = if j != 0 {
                "・"@
            } else {
                Seq::empty()
            };
            assert(gem =~= gem0 + (sep + span_values(doc@.groups[gv[j as int]])));
            assert(gem0 + ((sep + span_values(doc@.groups[gv[j as int]])) + spec_render_groups(
                gv,
                j + 1,
                doc@,
            )) =~= gem + spec_render_groups(gv, j + 1, doc@));
        }
        j += 1;
    }
    proof {
        assert(gem + Seq::<char>::empty() =~= gem);
        assert(gem == spec_render_groups(gv, 0, doc@));
    }
    push_str(out, "</p></div><div class=\"descs\">");
    let ghost gpart = "</p><p class=\"group\">"@ + spec_render_groups(item_v.groups, 0, doc@)
        + "</p></div><div class=\"descs\">"@;
    proof {
        assert(out@ =~= out0 + head_s + npair.0 + gpart);
    }
    let ghost cpd = out@;
    let ghost wd0 = warns_view(warnings@);
    let ghost dv = item_v.descs;
    let ghost mut dem: Seq<char> = Seq::empty();
    let ghost mut demw: Seq<Seq<char>> = Seq::empty();
    proof {
        crate::document::lemma_texts_view(it.descs@);
        assert(cpd + dem =~= cpd);
        assert(wd0 + demw =~= wd0);
        match spec_render_descs(dv, 0, doc@) {
            Ok(p) => {
                assert(dem + p.0 =~= p.0);
                assert(demw + p.1 =~= p.1);
            },
            Err(_) => {},
        }
    }
    let mut di: usize = 0;
    while di < it.descs.len()
        invariant
            doc_wf(doc@),
            k < doc@.items.len(),
            doc@.items[k as int] == item_v,
            item_v.name == Some(nv),
            spec_render_text(nv, 0, Seq::<Decoration>::empty(), doc@) matches Ok(p) && p == npair,
            item_v.descs == dv,
            dv == crate::document::texts_view(it.descs@),
            di <= it.descs@.len(),
            dv.len() == it.descs@.len(),
            out@ == cpd + dem,
            warns_view(warnings@) == wd0 + demw,
            w0 == warns_view(old(warnings)@),
            match spec_render_descs(dv, di as int, doc@) {
                Ok(p) => spec_render_descs(dv, 0, doc@) == Ok::<
                    (Seq<char>, Seq<Seq<char>>),
                    RenderError,
                >((dem + p.0, demw + p.1)),
                Err(e) => spec_render_descs(dv, 0, doc@) == Err::<
                    (Seq<char>, Seq<Seq<char>>),
                    RenderError,
                >(e),
            },
        decreases it.descs@.len() - di,
    {
        let ghost dem0 = dem;
        let ghost demw0 = demw;
        proof {
            crate::document::lemma_texts_view(it.descs@);
            assert(dv[di as int] == it.descs@[di as int]@);
        }
        push_str(out, "<p class=\"desc\">");
        let sub = it.descs[di].print(doc, out, warnings);
        match sub {
            Err(e) => {
                return Err(e);
            },
            Ok(_) => {},
        }
        push_str(out, "</p>");
        proof {
            match spec_render_text(dv[di as int], 0, Seq::<Decoration>::empty(), doc@) {
                Ok(p) => {
                    dem = dem0 + ("<p class=\"desc\">"@ + p.0 + "</p>"@);
                    demw = demw0 + p.1;
                    assert(out@ =~= cpd + dem);
                    match spec_render_descs(dv, di + 1, doc@) {
                        Ok(pr) => {
                            assert(dem0 + (("<p class=\"desc\">"@ + p.0 + "</p>"@) + pr.0)
                                =~= dem + pr.0);
                            assert(demw0 + (p.1 + pr.1) =~= demw + pr.1);
                        },
                        Err(_) => {},
                    }
                },
                Err(_) => {},
            }
        }
        di += 1;
    }
    push_str(out, "</div></div>");
    proof {
        match spec_render_descs(dv, it.descs@.len() as int, doc@) {
            Ok(p) => {
                assert(dem + p.0 =~= dem);
                assert(demw + p.1 =~= demw);
            },
            Err(_) => {},
        }
        match spec_render_item(item_v, doc@) {
            Ok(pair) => {
                assert(out@ =~= out0 + pair.0);
                assert(warns_view(warnings@) =~= w0 + pair.1);
            },
            Err(_) => {},
        }
    }
    Ok(())
}

/// Relies on chrono (`Utc::now`, `FixedOffset::east_opt`,
/// `DateTime::format`) for the current date in UTC+9, formatted
/// `%Y/%m/%d`.  The result depends on the clock, so nothing is promised
/// of it.
#[verifier::external_body]
fn today_jst() -> String {
    chrono::Utc::now().with_timezone(
        &chrono::offset::FixedOffset::east_opt(9 * 3600).unwrap(),
    ).format("%Y/%m/%d").to_string()
}

impl Document {
    /// Renders the whole document to HTML with the given date on the
    /// shell's date line, returning the output characters and the
    /// diagnostic lines.  The result is exactly `spec_render_doc`, so
    /// nothing is emitted for a document that fails: output is only
    /// handed back on overall success.
    #[verifier::rlimit(100)]
    pub fn print_dated(&self, date: &str) -> (r: Result<(Vec<char>, Vec<Vec<char>>), RenderError>)
        requires
            doc_wf(self@),
        ensures
            match spec_render_doc(self@, date@) {
                Ok(pair) => r matches Ok(p) && p.0@ == pair.0 && warns_view(p.1@) == pair.1,
                Err(e) => r matches Err(e2) && e2 == e,
            },
    {
        let mut out: Vec<char> = Vec::new();
        let mut warnings: Vec<Vec<char>> = Vec::new();
        push_str(
            &mut out,
            "<!DOCTYPE html><html><head><meta charset=\"utf-8\"><title>化合物から見る代謝経路</title><link rel=\"stylesheet\" type=\"text/css\" href=\"style.css\"></head><body><header><h1>化合物から見る代謝経路</h1><p>最終更新日：",
        );
        push_str(&mut out, date);
        push_str(&mut out, "</p></header>");
        proof {
            assert(out@ =~= shell_prefix(date@));
            assert(warns_view(warnings@) =~= Seq::<Seq<char>>::empty());
        }
        let ghost hv = self@.headers;
        let ghost mut hem: Seq<char> = Seq::empty();
        let ghost mut hemw: Seq<Seq<char>> = Seq::empty();
        proof {
            crate::document::lemma_headers_view(self.headers@);
            assert(shell_prefix(date@) + hem =~= shell_prefix(date@));
            match spec_render_headers(hv, 0, self@) {
                Ok(p) => {
                    assert(hem + p.0 =~= p.0);
                    assert(hemw + p.1 =~= p.1);
                },
                Err(_) => {},
            }
        }
        let mut hi: usize = 0;
        while hi < self.headers.len()
            invariant
                doc_wf(self@),
                hv == self@.headers,
                hv == crate::document::headers_view(self.headers@),
                hi <= self.headers@.len(),
                hv.len() == self.headers@.len(),
                out@ == shell_prefix(date@) + hem,
                warns_view(warnings@) == hemw,
                match spec_render_headers(hv, hi as int, self@) {
                    Ok(p) => spec_render_headers(hv, 0, self@) == Ok::<
                        (Seq<char>, Seq<Seq<char>>),
                        RenderError,
                    >((hem + p.0, hemw + p.1)),
                    Err(e) => spec_render_headers(hv, 0, self@) == Err::<
                        (Seq<char>, Seq<Seq<char>>),
                        RenderError,
                    >(e),
                },
            decreases self.headers@.len() - hi,
        {
            let ghost hem0 = hem;
            let ghost hemw0 = hemw;
            proof {
                crate::document::lemma_headers_view(self.headers@);
                assert(hv[hi as int] == (self.headers@[hi as int].0@, self.headers@[hi as int].1@));
            }
            let h = &self.headers[hi];
            push_str(&mut out, "<");
            push_span_values(&mut out, &h.0);
            push_str(&mut out, ">");
            let sub = h.1.print(self, &mut out, &mut warnings);
            match sub {
                Err(e) => {
                    return Err(e);
                },
                Ok(_) => {},
            }
            push_str(&mut out, "</");
            push_span_values(&mut out, &h.0);
            push_str(&mut out, ">");
            proof {
                match spec_render_text(hv[hi as int].1, 0, Seq::<Decoration>::empty(), self@) {
                    Ok(p) => {
                        let piece = "<"@ + span_values(hv[hi as int].0) + ">"@ + p.0 + "</"@
                            + span_values(hv[hi as int].0) + ">"@;
                        hem = hem0 + piece;
                        hemw = hemw0 + p.1;
                        assert(out@ =~= shell_prefix(date@) + hem);
                        assert(warns_view(warnings@) =~= hemw);
                        match spec_render_headers(hv, hi + 1, self@) {
                            Ok(pr) => {
                                assert(hem0 + (piece + pr.0) =~= hem + pr.0);
                                assert(hemw0 + (p.1 + pr.1) =~= hemw + pr.1);
                            },
                            Err(_) => {},
                        }
                    },
                    Err(_) => {},
                }
            }
            hi += 1;
        }
        let ghost hpair = spec_render_headers(hv, 0, self@)->Ok_0;
        proof {
            match spec_render_headers(hv, self.headers@.len() as int, self@) {
                Ok(p) => {
                    assert(hem + p.0 =~= hem);
                    assert(hemw + p.1 =~= hemw);
                },
                Err(_) => {},
            }
        }
        let ghost cpi = out@;
        let ghost iv = self@.items;
        let ghost mut iem: Seq<char> = Seq::empty();
        let ghost mut iemw: Seq<Seq<char>> = Seq::empty();
        proof {
            crate::document::lemma_items_view(self.items@);
            assert(cpi + iem =~= cpi);
            assert(hemw + iemw =~= hemw);
            match spec_render_items(iv, 0, self@) {
                Ok(p) => {
                    assert(iem + p.0 =~= p.0);
                    assert(iemw + p.1 =~= p.1);
                },
                Err(_) => {},
            }
        }
        let mut k: usize = 0;
        while k < self.items.len()
            invariant
                doc_wf(self@),
                iv == self@.items,
                k <= self.items@.len(),
                iv.len() == self.items@.len(),
                out@ == cpi + iem,
                warns_view(warnings@) == hemw + iemw,
                hv == self@.headers,
                spec_render_headers(hv, 0, self@) == Ok::<
                    (Seq<char>, Seq<Seq<char>>),
                    RenderError,
                >((hem, hemw)),
                cpi == shell_prefix(date@) + hem,
                match spec_render_items(iv, k as int, self@) {
                    Ok(p) => spec_render_items(iv, 0, self@) == Ok::<
                        (Seq<char>, Seq<Seq<char>>),
                        RenderError,
                    >((iem + p.0, iemw + p.1)),
                    Err(e) => spec_render_items(iv, 0, self@) == Err::<
                        (Seq<char>, Seq<Seq<char>>),
                        RenderError,
                    >(e),
                },
            decreases self.items@.len() - k,
        {
            let ghost iem0 = iem;
            let ghost iemw0 = iemw;
            let sub = render_item(self, k, &mut out, &mut warnings);
            match sub {
                Err(e) => {
                    return Err(e);
                },
                Ok(_) => {},
            }
            proof {
                match spec_render_item(iv[k as int], self@) {
                    Ok(p) => {
                        iem = iem0 + p.0;
                        iemw = iemw0 + p.1;
                        assert(out@ =~= cpi + iem);
                        assert(warns_view(warnings@) =~= hemw + iemw);
                        match spec_render_items(iv, k + 1, self@) {
                            Ok(pr) => {
                                assert(iem0 + (p.0 + pr.0) =~= iem + pr.0);
                                assert(iemw0 + (p.1 + pr.1) =~= iemw + pr.1);
                            },
                            Err(_) => {},
                        }
                    },
                    Err(_) => {},
                }
            }
            k += 1;
        }
        push_str(&mut out, "</body>");
        proof {
            match spec_render_items(iv, self.items@.len() as int, self@) {
                Ok(p) => {
                    assert(iem + p.0 =~= iem);
                    assert(iemw + p.1 =~= iemw);
                },
                Err(_) => {},
            }
            match spec_render_doc(self@, date@) {
                Ok(pair) => {
                    assert(out@ =~= pair.0);
                    assert(warns_view(warnings@) =~= pair.1);
                },
                Err(_) => {},
            }
        }
        Ok((out, warnings))
    }

    /// Renders the document with today's date (UTC+9) on the date
    /// line: the clock chooses the date, and the rest of the output is
    /// `spec_render_doc` for that date.
    pub fn print(&self) -> (r: Result<(Vec<char>, Vec<Vec<char>>), RenderError>)
        requires
            doc_wf(self@),
        ensures
            match r {
                Ok(p) => exists|d: Seq<char>|
                    #[trigger] spec_render_doc(self@, d) == Ok::<
                        (Seq<char>, Seq<Seq<char>>),
                        RenderError,
                    >((p.0@, warns_view(p.1@))),
                Err(e) => exists|d: Seq<char>|
                    #[trigger] spec_render_doc(self@, d) == Err::<
                        (Seq<char>, Seq<Seq<char>>),
                        RenderError,
                    >(e),
            },
    {
        let date = today_jst();
        let r = self.print_dated(date.as_str());
        proof {
            match &r {
                Ok(p) => {
                    assert(spec_render_doc(self@, date@) == Ok::<
                        (Seq<char>, Seq<Seq<char>>),
                        RenderError,
                    >((p.0@, warns_view(p.1@))));
                },
                Err(e) => {
                    assert(spec_render_doc(self@, date@) == Err::<
                        (Seq<char>, Seq<Seq<char>>),
                        RenderError,
                    >(*e));
                },
            }
        }
        r
    }
}

} // verus!
