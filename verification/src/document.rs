//! The semantic linking pass.
//!
//! The expression list is folded, strictly in source order, into a
//! document: an ordered list of items keyed by identity, a name index
//! for cross-references, and an interning table for group tags.  All
//! interning is structural, on character values: two spans with the same
//! characters always resolve to the same entry, wherever they were
//! written.

use vstd::prelude::*;
use crate::chars::{Char, span_matches, span_eq};
use crate::text::{Text, TokenV, text_matches};
use crate::parser::{Expr, ExprV, exprs_view, lemma_exprs_view};

verus! {

/// Everything the linking pass can reject.
#[derive(Clone, Copy, Debug, PartialEq, Eq, Structural)]
pub enum CompileError {
    /// A name appeared before any identity.
    NoIdentityBeforeName,
    /// A description appeared before any identity.
    NoIdentityBeforeDesc,
    /// A second, structurally different name for one identity.
    DuplicateName,
}

/// One glossary entry.
#[derive(Debug)]
pub struct Item {
    /// The identity span: the stable key of the entry.
    pub identity: Vec<Char>,
    /// The display name, set at most once.
    pub name: Option<Text>,
    /// The entry's descriptions, in declaration order.
    pub descs: Vec<Text>,
    /// Indices into the document's group table, ascending and unique.
    pub groups: Vec<usize>,
}

/// The compiled document.
#[derive(Debug)]
pub struct Document {
    /// Header wrapper tags with their contents, in declaration order.
    pub headers: Vec<(Vec<Char>, Text)>,
    /// The items, in first-declaration order.
    pub items: Vec<Item>,
    /// The interned group spans, in first-seen order.
    pub groups: Vec<Vec<Char>>,
    /// The name index: each declared name with its item's index.
    pub names: Vec<(Text, usize)>,
}

/// Mathematical image of an `Item`.
#[verifier::ext_equal]
pub struct ItemV {
    pub identity: Seq<Char>,
    pub name: Option<Seq<TokenV>>,
    pub descs: Seq<Seq<TokenV>>,
    pub groups: Seq<int>,
}

/// Mathematical image of a `Document`.
#[verifier::ext_equal]
pub struct DocV {
    pub headers: Seq<(Seq<Char>, Seq<TokenV>)>,
    pub items: Seq<ItemV>,
    pub groups: Seq<Seq<Char>>,
    pub names: Seq<(Seq<TokenV>, int)>,
}

/// The images of a list of texts.
pub open spec fn texts_view(ts: Seq<Text>) -> Seq<Seq<TokenV>> {
    Seq::new(
        ts.len(),
        |i: int|
            if 0 <= i < ts.len() {
                ts[i]@
            } else {
                arbitrary()
            },
    )
}

/// The images of a list of group indices.
pub open spec fn group_indices_view(gs: Seq<usize>) -> Seq<int> {
    Seq::new(
        gs.len(),
        |i: int|
            if 0 <= i < gs.len() {
                gs[i] as int
            } else {
                arbitrary()
            },
    )
}

impl Item {
    /// The mathematical image of this item.
    pub open spec fn view(&self) -> ItemV {
        ItemV {
            identity: self.identity@,
            name: match self.name {
                Some(t) => Some(t@),
                None => None,
            },
            descs: texts_view(self.descs@),
            groups: group_indices_view(self.groups@),
        }
    }
}

/// The images of a list of items.
pub open spec fn items_view(items: Seq<Item>) -> Seq<ItemV> {
    Seq::new(
        items.len(),
        |i: int|
            if 0 <= i < items.len() {
                items[i]@
            } else {
                arbitrary()
            },
    )
}

/// The images of a list of headers.
pub open spec fn headers_view(hs: Seq<(Vec<Char>, Text)>) -> Seq<(Seq<Char>, Seq<TokenV>)> {
    Seq::new(
        hs.len(),
        |i: int|
            if 0 <= i < hs.len() {
                (hs[i].0@, hs[i].1@)
            } else {
                arbitrary()
            },
    )
}

/// The images of a list of group spans.
pub open spec fn groups_view(gs: Seq<Vec<Char>>) -> Seq<Seq<Char>> {
    Seq::new(
        gs.len(),
        |i: int|
            if 0 <= i < gs.len() {
                gs[i]@
            } else {
                arbitrary()
            },
    )
}

/// The images of a name index.
pub open spec fn names_view(ns: Seq<(Text, usize)>) -> Seq<(Seq<TokenV>, int)> {
    Seq::new(
        ns.len(),
        |i: int|
            if 0 <= i < ns.len() {
                (ns[i].0@, ns[i].1 as int)
            } else {
                arbitrary()
            },
    )
}

impl Document {
    /// The mathematical image of this document.
    pub open spec fn view(&self) -> DocV {
        DocV {
            headers: headers_view(self.headers@),
            items: items_view(self.items@),
            groups: groups_view(self.groups@),
            names: names_view(self.names@),
        }
    }
}

/// A fresh item: an identity with no name, descriptions or groups yet.
pub open spec fn fresh_item(sp: Seq<Char>) -> ItemV {
    ItemV { identity: sp, name: None, descs: Seq::empty(), groups: Seq::empty() }
}

impl Item {
    /// A fresh item for a newly seen identity span.
    pub fn from_identity(s: &[Char]) -> (r: Item)
        ensures
            r@ == fresh_item(s@),
    {
        let mut v: Vec<Char> = Vec::new();
        let mut i: usize = 0;
        while i < s.len()
            invariant
                i <= s@.len(),
                v@ == s@.subrange(0, i as int),
            decreases s@.len() - i,
        {
            v.push(s[i]);
            i += 1;
        }
        let r = Item { identity: v, name: None, descs: Vec::new(), groups: Vec::new() };
        proof {
            assert(r.identity@ =~= s@);
            assert(r@ =~~= fresh_item(s@));
        }
        r
    }
}

/// The first item whose identity matches the span, searched from `k`.
pub open spec fn find_item_from(items: Seq<ItemV>, sp: Seq<Char>, k: int) -> Option<int>
    decreases items.len() - k,
{
    if k < 0 || k >= items.len() {
        None
    } else if span_matches(items[k].identity, sp) {
        Some(k)
    } else {
        find_item_from(items, sp, k + 1)
    }
}

/// The first item whose identity matches the span.
pub open spec fn find_item(items: Seq<ItemV>, sp: Seq<Char>) -> Option<int> {
    find_item_from(items, sp, 0)
}

/// The first interned group matching the span, searched from `k`.
pub open spec fn find_group_from(groups: Seq<Seq<Char>>, sp: Seq<Char>, k: int) -> Option<int>
    decreases groups.len() - k,
{
    if k < 0 || k >= groups.len() {
        None
    } else if span_matches(groups[k], sp) {
        Some(k)
    } else {
        find_group_from(groups, sp, k + 1)
    }
}

/// The first interned group matching the span.
pub open spec fn find_group(groups: Seq<Seq<Char>>, sp: Seq<Char>) -> Option<int> {
    find_group_from(groups, sp, 0)
}

/// Inserts a group index into an ascending, duplicate-free index list,
/// keeping it ascending and duplicate-free.
pub open spec fn insert_group_index(gs: Seq<int>, g: int) -> Seq<int>
    decreases gs.len(),
{
    if gs.len() == 0 {
        seq![g]
    } else if g < gs[0] {
        seq![g] + gs
    } else if g == gs[0] {
        gs
    } else {
        seq![gs[0]] + insert_group_index(gs.drop_first(), g)
    }
}

/// The linking state: the document built so far and the current item,
/// if an identity has been seen.
#[verifier::ext_equal]
pub struct LinkState {
    pub doc: DocV,
    pub cur: Option<int>,
}

/// The empty linking state.
pub open spec fn empty_state() -> LinkState {
    LinkState {
        doc: DocV {
            headers: Seq::empty(),
            items: Seq::empty(),
            groups: Seq::empty(),
            names: Seq::empty(),
        },
        cur: None,
    }
}

/// How one expression transforms the linking state.
///
/// - An identity is interned structurally: a matching item becomes
///   current, a new span appends a fresh item.
/// - A name requires a current item; a second, non-matching name for the
///   same item is a duplicate-name error, a matching one is tolerated.
/// - A header is appended unconditionally.
/// - A description requires a current item; a non-empty group span is
///   interned in first-seen order and its index added to the item.
pub open spec fn compile_step(st: LinkState, e: ExprV) -> Result<LinkState, CompileError> {
    match e {
        ExprV::Identity(sp) => match find_item(st.doc.items, sp) {
            Some(k) => Ok(LinkState { cur: Some(k), ..st }),
            None => Ok(
                LinkState {
                    doc: DocV { items: st.doc.items.push(fresh_item(sp)), ..st.doc },
                    cur: Some(st.doc.items.len() as int),
                },
            ),
        },
        ExprV::Name(tv) => match st.cur {
            None => Err(CompileError::NoIdentityBeforeName),
            Some(k) => match st.doc.items[k].name {
                Some(prev) => if text_matches(prev, tv) {
                    Ok(st)
                } else {
                    Err(CompileError::DuplicateName)
                },
                None => Ok(
                    LinkState {
                        doc: DocV {
                            items: st.doc.items.update(
                                k,
                                ItemV { name: Some(tv), ..st.doc.items[k] },
                            ),
                            names: st.doc.names.push((tv, k)),
                            ..st.doc
                        },
                        ..st
                    },
                ),
            },
        },
        ExprV::Head(tag, tv) => Ok(
            LinkState { doc: DocV { headers: st.doc.headers.push((tag, tv)), ..st.doc }, ..st },
        ),
        ExprV::Desc(g, tv) => match st.cur {
            None => Err(CompileError::NoIdentityBeforeDesc),
            Some(k) => {
                let with_desc = st.doc.items[k].descs.push(tv);
                if g.len() == 0 {
                    Ok(
                        LinkState {
                            doc: DocV {
                                items: st.doc.items.update(
                                    k,
                                    ItemV { descs: with_desc, ..st.doc.items[k] },
                                ),
                                ..st.doc
                            },
                            ..st
                        },
                    )
                } else {
                    let (gi, groups) = match find_group(st.doc.groups, g) {
                        Some(gi) => (gi, st.doc.groups),
                        None => (st.doc.groups.len() as int, st.doc.groups.push(g)),
                    };
                    Ok(
                        LinkState {
                            doc: DocV {
                                items: st.doc.items.update(
                                    k,
                                    ItemV {
                                        descs: with_desc,
                                        groups: insert_group_index(st.doc.items[k].groups, gi),
                                        ..st.doc.items[k]
                                    },
                                ),
                                groups: groups,
                                ..st.doc
                            },
                            ..st
                        },
                    )
                }
            },
        },
    }
}

/// Folds the expressions from index `k` on into the state.
pub open spec fn spec_compile_from(st: LinkState, evs: Seq<ExprV>, k: int) -> Result<
    LinkState,
    CompileError,
>
    decreases evs.len() - k,
{
    if k < 0 || k >= evs.len() {
        Ok(st)
    } else {
        match compile_step(st, evs[k]) {
            Ok(st2) => spec_compile_from(st2, evs, k + 1),
            Err(e) => Err(e),
        }
    }
}

/// What linking a whole expression list produces.
pub open spec fn spec_compile(evs: Seq<ExprV>) -> Result<LinkState, CompileError> {
    spec_compile_from(empty_state(), evs, 0)
}

/// Every group index of the item points into a group table of the
/// given length.
pub open spec fn item_wf(it: ItemV, ngroups: int) -> bool {
    forall|j: int| 0 <= j < it.groups.len() ==> 0 <= #[trigger] it.groups[j] < ngroups
}

/// The document's internal invariant: every group index in an item is a
/// valid index into the group table, and every name-index entry points
/// at an existing item.
pub open spec fn doc_wf(doc: DocV) -> bool {
    &&& forall|i: int|
        0 <= i < doc.items.len() ==> item_wf(#[trigger] doc.items[i], doc.groups.len() as int)
    &&& forall|i: int| 0 <= i < doc.names.len() ==> 0 <= (#[trigger] doc.names[i]).1
        < doc.items.len()
}

/// The linking state's invariant: a well-formed document and a current
/// index that points at an existing item.
pub open spec fn state_wf(st: LinkState) -> bool {
    &&& doc_wf(st.doc)
    &&& match st.cur {
        Some(k) => 0 <= k < st.doc.items.len(),
        None => true,
    }
}

/// The name index describes the items: every entry points at an
/// existing item whose declared name structurally matches the entry's
/// key.
pub open spec fn names_consistent(doc: DocV) -> bool {
    forall|i: int|
        0 <= i < doc.names.len() ==> {
            let e = #[trigger] doc.names[i];
            &&& 0 <= e.1 < doc.items.len()
            &&& doc.items[e.1].name matches Some(n) && text_matches(n, e.0)
        }
}

/// One linking step preserves the name index's consistency.
pub proof fn lemma_step_keeps_names_consistent(st: LinkState, e: ExprV)
    requires
        state_wf(st),
        names_consistent(st.doc),
    ensures
        compile_step(st, e) matches Ok(st2) ==> names_consistent(st2.doc),
{
    match compile_step(st, e) {
        Ok(st2) => {
            assert forall|i: int| 0 <= i < st2.doc.names.len() implies {
                let en = #[trigger] st2.doc.names[i];
                &&& 0 <= en.1 < st2.doc.items.len()
                &&& st2.doc.items[en.1].name matches Some(n) && text_matches(n, en.0)
            } by {
                match e {
                    ExprV::Identity(_) => {},
                    ExprV::Name(tv) => {
                        match st.cur {
                            Some(k) => {
                                if st.doc.items[k].name is None {
                                    if i < st.doc.names.len() {
                                        let en = st.doc.names[i];
                                        assert(en.1 != k);
                                    } else {
                                        crate::text::lemma_text_matches_refl(tv);
                                    }
                                }
                            },
                            None => {},
                        }
                    },
                    ExprV::Head(_, _) => {},
                    ExprV::Desc(_, _) => {},
                }
            }
        },
        Err(_) => {},
    }
}

/// Linking from a consistent state ends in a consistent state.
pub proof fn lemma_spec_compile_from_names_consistent(st: LinkState, evs: Seq<ExprV>, k: int)
    requires
        state_wf(st),
        names_consistent(st.doc),
    ensures
        spec_compile_from(st, evs, k) matches Ok(st2) ==> names_consistent(st2.doc),
    decreases evs.len() - k,
{
    if 0 <= k < evs.len() {
        lemma_compile_step_wf(st, evs[k]);
        lemma_step_keeps_names_consistent(st, evs[k]);
        match compile_step(st, evs[k]) {
            Ok(st2) => {
                lemma_spec_compile_from_names_consistent(st2, evs, k + 1);
            },
            Err(_) => {},
        }
    }
}

/// Linking a whole expression list yields a consistent name index.
pub proof fn lemma_spec_compile_names_consistent(evs: Seq<ExprV>)
    ensures
        spec_compile(evs) matches Ok(st) ==> names_consistent(st.doc),
{
    lemma_spec_compile_from_names_consistent(empty_state(), evs, 0);
}

/// A hit of the item search lies in range.
pub proof fn lemma_find_item_from_range(items: Seq<ItemV>, sp: Seq<Char>, k: int)
    ensures
        find_item_from(items, sp, k) matches Some(j) ==> 0 <= k <= j < items.len(),
    decreases items.len() - k,
{
    if 0 <= k < items.len() && !span_matches(items[k].identity, sp) {
        lemma_find_item_from_range(items, sp, k + 1);
    }
}

/// A hit of the group search lies in range.
pub proof fn lemma_find_group_from_range(groups: Seq<Seq<Char>>, sp: Seq<Char>, k: int)
    ensures
        find_group_from(groups, sp, k) matches Some(j) ==> 0 <= k <= j < groups.len(),
    decreases groups.len() - k,
{
    if 0 <= k < groups.len() && !span_matches(groups[k], sp) {
        lemma_find_group_from_range(groups, sp, k + 1);
    }
}

/// Inserting an in-range index into an in-range list keeps every entry
/// in range.
pub proof fn lemma_insert_group_index_bounds(gs: Seq<int>, g: int, n: int)
    requires
        forall|j: int| 0 <= j < gs.len() ==> 0 <= #[trigger] gs[j] < n,
        0 <= g < n,
    ensures
        forall|j: int|
            0 <= j < insert_group_index(gs, g).len() ==> 0 <= #[trigger] insert_group_index(
                gs,
                g,
            )[j] < n,
    decreases gs.len(),
{
    if gs.len() == 0 {
        assert(insert_group_index(gs, g) == seq![g]);
    } else if g < gs[0] {
        assert forall|j: int| 0 <= j < (seq![g] + gs).len() implies 0 <= #[trigger] (seq![g]
            + gs)[j] < n by {
            if j > 0 {
                assert((seq![g] + gs)[j] == gs[j - 1]);
            }
        }
    } else if g == gs[0] {
    } else {
        let tail = gs.drop_first();
        assert forall|j: int| 0 <= j < tail.len() implies 0 <= #[trigger] tail[j] < n by {
            assert(tail[j] == gs[j + 1]);
        }
        lemma_insert_group_index_bounds(tail, g, n);
        let r = seq![gs[0]] + insert_group_index(tail, g);
        assert forall|j: int| 0 <= j < r.len() implies 0 <= #[trigger] r[j] < n by {
            if j > 0 {
                assert(r[j] == insert_group_index(tail, g)[j - 1]);
            }
        }
    }
}

/// One linking step preserves the invariant.
pub proof fn lemma_compile_step_wf(st: LinkState, e: ExprV)
    requires
        state_wf(st),
    ensures
        compile_step(st, e) matches Ok(st2) ==> state_wf(st2),
{
    match e {
        ExprV::Identity(sp) => {
            lemma_find_item_from_range(st.doc.items, sp, 0);
        },
        ExprV::Name(_) => {},
        ExprV::Head(_, _) => {},
        ExprV::Desc(g, tv) => {
            match st.cur {
                None => {},
                Some(k) => {
                    if g.len() > 0 {
                        lemma_find_group_from_range(st.doc.groups, g, 0);
                        let (gi, groups) = match find_group(st.doc.groups, g) {
                            Some(gi) => (gi, st.doc.groups),
                            None => (st.doc.groups.len() as int, st.doc.groups.push(g)),
                        };
                        lemma_insert_group_index_bounds(
                            st.doc.items[k].groups,
                            gi,
                            groups.len() as int,
                        );
                    }
                },
            }
        },
    }
}

/// Linking from any well-formed state ends in a well-formed state.
pub proof fn lemma_spec_compile_from_wf(st: LinkState, evs: Seq<ExprV>, k: int)
    requires
        state_wf(st),
    ensures
        spec_compile_from(st, evs, k) matches Ok(st2) ==> state_wf(st2),
    decreases evs.len() - k,
{
    if 0 <= k < evs.len() {
        lemma_compile_step_wf(st, evs[k]);
        match compile_step(st, evs[k]) {
            Ok(st2) => {
                lemma_spec_compile_from_wf(st2, evs, k + 1);
            },
            Err(_) => {},
        }
    }
}

/// Linking a whole expression list yields a well-formed state.
pub proof fn lemma_spec_compile_wf(evs: Seq<ExprV>)
    ensures
        spec_compile(evs) matches Ok(st) ==> state_wf(st),
{
    lemma_spec_compile_from_wf(empty_state(), evs, 0);
}

/// The image of a text list indexes to the images of its texts.
pub proof fn lemma_texts_view(ts: Seq<Text>)
    ensures
        texts_view(ts).len() == ts.len(),
        forall|i: int| 0 <= i < ts.len() ==> texts_view(ts)[i] == #[trigger] ts[i]@,
{
}

/// The image of an item list indexes to the images of its items.
pub proof fn lemma_items_view(items: Seq<Item>)
    ensures
        items_view(items).len() == items.len(),
        forall|i: int| 0 <= i < items.len() ==> items_view(items)[i] == #[trigger] items[i]@,
{
}

/// The image of a group-index list indexes to its entries.
pub proof fn lemma_group_indices_view(gs: Seq<usize>)
    ensures
        group_indices_view(gs).len() == gs.len(),
        forall|i: int| 0 <= i < gs.len() ==> group_indices_view(gs)[i] == #[trigger] gs[i] as int,
{
}

/// The image of a group list indexes to the images of its spans.
pub proof fn lemma_groups_view(gs: Seq<Vec<Char>>)
    ensures
        groups_view(gs).len() == gs.len(),
        forall|i: int| 0 <= i < gs.len() ==> groups_view(gs)[i] == #[trigger] gs[i]@,
{
}

/// The image of a name index indexes to the images of its entries.
pub proof fn lemma_names_view(ns: Seq<(Text, usize)>)
    ensures
        names_view(ns).len() == ns.len(),
        forall|i: int|
            0 <= i < ns.len() ==> names_view(ns)[i] == (#[trigger] ns[i].0@, ns[i].1 as int),
{
}

/// The image of a header list indexes to the images of its entries.
pub proof fn lemma_headers_view(hs: Seq<(Vec<Char>, Text)>)
    ensures
        headers_view(hs).len() == hs.len(),
        forall|i: int|
            0 <= i < hs.len() ==> headers_view(hs)[i] == (#[trigger] hs[i].0@, hs[i].1@),
{
}

/// Inserting into an ascending list at the position found by a linear
/// scan is what `insert_group_index` describes.
pub proof fn lemma_insert_group_index_pos(gs: Seq<int>, g: int, pos: int)
    requires
        0 <= pos <= gs.len(),
        forall|j: int| 0 <= j < pos ==> gs[j] < g,
        pos < gs.len() ==> gs[pos] >= g,
    ensures
        (pos < gs.len() && gs[pos] == g) ==> insert_group_index(gs, g) == gs,
        !(pos < gs.len() && gs[pos] == g) ==> insert_group_index(gs, g) == gs.subrange(0, pos)
            + seq![g] + gs.subrange(pos, gs.len() as int),
    decreases pos,
{
    if pos == 0 {
        if gs.len() == 0 {
            assert(insert_group_index(gs, g) =~= gs.subrange(0, 0) + seq![g] + gs.subrange(0, 0));
        } else if g < gs[0] {
            assert(seq![g] + gs =~= gs.subrange(0, 0) + seq![g] + gs.subrange(0, gs.len() as int));
        }
    } else {
        let tail = gs.drop_first();
        assert forall|j: int| 0 <= j < pos - 1 implies tail[j] < g by {
            assert(tail[j] == gs[j + 1]);
        }
        assert(pos - 1 < tail.len() ==> tail[pos - 1] == gs[pos]);
        lemma_insert_group_index_pos(tail, g, pos - 1);
        assert(gs[0] < g);
        if pos < gs.len() && gs[pos] == g {
            assert(insert_group_index(tail, g) == tail);
            assert(seq![gs[0]] + tail =~= gs);
        } else {
            assert(seq![gs[0]] + (tail.subrange(0, pos - 1) + seq![g] + tail.subrange(
                pos - 1,
                tail.len() as int,
            )) =~= gs.subrange(0, pos) + seq![g] + gs.subrange(pos, gs.len() as int));
        }
    }
}

/// Inserts a group index into an ascending, duplicate-free list.
fn insert_group(gs: &mut Vec<usize>, g: usize)
    ensures
        group_indices_view(final(gs)@) == insert_group_index(
            group_indices_view(old(gs)@),
            g as int,
        ),
{
    proof {
        lemma_group_indices_view(gs@);
    }
    let ghost gv = group_indices_view(gs@);
    let mut pos: usize = 0;
    while pos < gs.len() && gs[pos] < g
        invariant
            gs@ == old(gs)@,
            gv == group_indices_view(gs@),
            pos <= gs@.len(),
            forall|j: int| 0 <= j < pos ==> (gs@[j] as int) < g,
        decreases gs@.len() - pos,
    {
        pos += 1;
    }
    proof {
        lemma_group_indices_view(gs@);
        assert forall|j: int| 0 <= j < pos implies gv[j] < g by {
            assert(gv[j] == gs@[j] as int);
        }
        assert(pos < gs@.len() ==> gv[pos as int] == gs@[pos as int] as int);
        lemma_insert_group_index_pos(gv, g as int, pos as int);
    }
    if pos < gs.len() {
        if gs[pos] == g {
            return ;
        }
    }
    gs.insert(pos, g);
    proof {
        lemma_group_indices_view(old(gs)@);
        lemma_group_indices_view(gs@);
        assert(group_indices_view(gs@) =~= gv.subrange(0, pos as int) + seq![g as int]
            + gv.subrange(pos as int, gv.len() as int));
    }
}

/// The first item whose identity matches the span, by linear scan.
fn find_item_in(items: &Vec<Item>, sp: &Vec<Char>) -> (r: Option<usize>)
    ensures
        match r {
            Some(k) => find_item(items_view(items@), sp@) == Some(k as int) && (k as int)
                < items@.len(),
            None => find_item(items_view(items@), sp@) is None,
        },
{
    let ghost iv = items_view(items@);
    let mut k: usize = 0;
    while k < items.len()
        invariant
            k <= items@.len(),
            iv == items_view(items@),
            find_item_from(iv, sp@, 0) == find_item_from(iv, sp@, k as int),
        decreases items@.len() - k,
    {
        let hit = span_eq(items[k].identity.as_slice(), sp.as_slice());
        proof {
            lemma_items_view(items@);
            assert(iv[k as int] == items@[k as int]@);
        }
        if hit {
            return Some(k);
        }
        k += 1;
    }
    None
}

/// The first interned group matching the span, by linear scan.
fn find_group_in(groups: &Vec<Vec<Char>>, sp: &Vec<Char>) -> (r: Option<usize>)
    ensures
        match r {
            Some(k) => find_group(groups_view(groups@), sp@) == Some(k as int) && (k as int)
                < groups@.len(),
            None => find_group(groups_view(groups@), sp@) is None,
        },
{
    let ghost gv = groups_view(groups@);
    let mut k: usize = 0;
    while k < groups.len()
        invariant
            k <= groups@.len(),
            gv == groups_view(groups@),
            find_group_from(gv, sp@, 0) == find_group_from(gv, sp@, k as int),
        decreases groups@.len() - k,
    {
        let hit = span_eq(groups[k].as_slice(), sp.as_slice());
        proof {
            lemma_groups_view(groups@);
            assert(gv[k as int] == groups@[k as int]@);
        }
        if hit {
            return Some(k);
        }
        k += 1;
    }
    None
}

/// The current-item index as the specification sees it.
pub open spec fn opt_view(c: Option<usize>) -> Option<int> {
    match c {
        Some(k) => Some(k as int),
        None => None,
    }
}

/// The linking state the four tables and the current index stand for.
pub open spec fn state_of(
    headers: Seq<(Vec<Char>, Text)>,
    items: Seq<Item>,
    groups: Seq<Vec<Char>>,
    names: Seq<(Text, usize)>,
    cur: Option<usize>,
) -> LinkState {
    LinkState {
        doc: DocV {
            headers: headers_view(headers),
            items: items_view(items),
            groups: groups_view(groups),
            names: names_view(names),
        },
        cur: opt_view(cur),
    }
}

impl Document {
    /// Folds the expression list, strictly in source order, into a
    /// document.  The result — items, headers, interned groups, the
    /// name index, and every error — is exactly that of `spec_compile`
    /// on the expressions' images.
    pub fn from_source(source: &Vec<Expr>) -> (r: Result<Document, CompileError>)
        ensures
            match spec_compile(exprs_view(source@)) {
                Ok(st) => r matches Ok(d) && d@ == st.doc && state_wf(st),
                Err(e) => r matches Err(e2) && e2 == e,
            },
    {
        proof {
            lemma_spec_compile_wf(exprs_view(source@));
        }
        let ghost evs = exprs_view(source@);
        let mut headers: Vec<(Vec<Char>, Text)> = Vec::new();
        let mut items: Vec<Item> = Vec::new();
        let mut groups: Vec<Vec<Char>> = Vec::new();
        let mut names: Vec<(Text, usize)> = Vec::new();
        let mut cur: Option<usize> = None;
        proof {
            assert(state_of(headers@, items@, groups@, names@, cur) =~~= empty_state());
        }
        let mut k: usize = 0;
        while k < source.len()
            invariant
                evs == exprs_view(source@),
                k <= source@.len(),
                match cur {
                    Some(c) => (c as int) < items@.len(),
                    None => true,
                },
                spec_compile(evs) == spec_compile_from(
                    state_of(headers@, items@, groups@, names@, cur),
                    evs,
                    k as int,
                ),
            decreases source@.len() - k,
        {
            let ghost st0 = state_of(headers@, items@, groups@, names@, cur);
            proof {
                lemma_exprs_view(source@);
                assert(evs[k as int] == source@[k as int]@);
            }
            let e = &source[k];
            match e {
                Expr::Identity(sp) => {
                    let found = find_item_in(&items, sp);
                    match found {
                        Some(c) => {
                            cur = Some(c);
                            proof {
                                assert(state_of(headers@, items@, groups@, names@, cur)
                                    =~~= (LinkState { cur: Some(c as int), ..st0 }));
                            }
                        },
                        None => {
                            let ghost items0 = items@;
                            let it = Item::from_identity(sp.as_slice());
                            let ghost itg = it;
                            items.push(it);
                            cur = Some(items.len() - 1);
                            proof {
                                lemma_items_view(items0);
                                lemma_items_view(items@);
                                assert(itg@ =~~= fresh_item(sp@));
                                assert(items_view(items@) =~~= items_view(items0).push(
                                    fresh_item(sp@),
                                ));
                                assert(state_of(headers@, items@, groups@, names@, cur)
                                    =~~= (LinkState {
                                    doc: DocV {
                                        items: st0.doc.items.push(fresh_item(sp@)),
                                        ..st0.doc
                                    },
                                    cur: Some(st0.doc.items.len() as int),
                                }));
                            }
                        },
                    }
                },
                Expr::Name(t) => {
                    match cur {
                        None => {
                            return Err(CompileError::NoIdentityBeforeName);
                        },
                        Some(c) => {
                            let prev_state: u8 = match &items[c].name {
                                Some(prev) => if prev.matches(t) {
                                    1
                                } else {
                                    2
                                },
                                None => 0,
                            };
                            if prev_state == 2 {
                                return Err(CompileError::DuplicateName);
                            } else if prev_state == 1 {
                                proof {
                                    assert(state_of(headers@, items@, groups@, names@, cur)
                                        =~~= st0);
                                }
                            } else {
                                let ghost items0 = items@;
                                let ghost names0 = names@;
                                let td = t.duplicate();
                                let td2 = t.duplicate();
                                {
                                    let it = &mut items[c];
                                    it.name = Some(td);
                                }
                                names.push((td2, c));
                                proof {
                                    lemma_items_view(items0);
                                    lemma_items_view(items@);
                                    assert(items@[c as int]@ =~~= (ItemV {
                                        name: Some(t@),
                                        ..items0[c as int]@
                                    }));
                                    assert(items_view(items@) =~~= items_view(items0).update(
                                        c as int,
                                        ItemV { name: Some(t@), ..items_view(items0)[c as int] },
                                    ));
                                    assert(names_view(names@) =~~= names_view(names0).push(
                                        (t@, c as int),
                                    ));
                                    assert(state_of(headers@, items@, groups@, names@, cur)
                                        =~~= (LinkState {
                                        doc: DocV {
                                            items: st0.doc.items.update(
                                                c as int,
                                                ItemV {
                                                    name: Some(t@),
                                                    ..st0.doc.items[c as int]
                                                },
                                            ),
                                            names: st0.doc.names.push((t@, c as int)),
                                            ..st0.doc
                                        },
                                        ..st0
                                    }));
                                }
                            }
                        },
                    }
                },
                Expr::Head(tag, t) => {
                    let ghost headers0 = headers@;
                    let tagc = crate::chars::copy_chars(tag);
                    let td = t.duplicate();
                    headers.push((tagc, td));
                    proof {
                        assert(headers_view(headers@) =~~= headers_view(headers0).push(
                            (tag@, t@),
                        ));
                        assert(state_of(headers@, items@, groups@, names@, cur)
                            =~~= (LinkState {
                            doc: DocV { headers: st0.doc.headers.push((tag@, t@)), ..st0.doc },
                            ..st0
                        }));
                    }
                },
                Expr::Desc(g, t) => {
                    match cur {
                        None => {
                            return Err(CompileError::NoIdentityBeforeDesc);
                        },
                        Some(c) => {
                            let ghost items0 = items@;
                            let ghost groups0 = groups@;
                            let td = t.duplicate();
                            {
                                let it = &mut items[c];
                                it.descs.push(td);
                            }
                            proof {
                                lemma_items_view(items0);
                                lemma_items_view(items@);
                                lemma_texts_view(items0[c as int].descs@);
                                lemma_texts_view(items@[c as int].descs@);
                                assert(items@[c as int]@.descs =~~= items0[c as int]@.descs.push(
                                    t@,
                                ));
                            }
                            if g.len() > 0 {
                                let found = find_group_in(&groups, g);
                                let gi: usize = match found {
                                    Some(gi) => gi,
                                    None => {
                                        let gc = crate::chars::copy_chars(g);
                                        groups.push(gc);
                                        proof {
                                            assert(groups_view(groups@) =~~= groups_view(
                                                groups0,
                                            ).push(g@));
                                        }
                                        groups.len() - 1
                                    },
                                };
                                let ghost items1 = items@;
                                {
                                    let it = &mut items[c];
                                    insert_group(&mut it.groups, gi);
                                }
                                proof {
                                    lemma_items_view(items1);
                                    lemma_items_view(items@);
                                    let stepv = compile_step(st0, evs[k as int]);
                                    assert(items@[c as int]@ =~~= (ItemV {
                                        descs: st0.doc.items[c as int].descs.push(t@),
                                        groups: insert_group_index(
                                            st0.doc.items[c as int].groups,
                                            gi as int,
                                        ),
                                        ..st0.doc.items[c as int]
                                    }));
                                    assert(state_of(headers@, items@, groups@, names@, cur)
                                        =~~= stepv->Ok_0);
                                }
                            } else {
                                proof {
                                    assert(items@[c as int]@ =~~= (ItemV {
                                        descs: st0.doc.items[c as int].descs.push(t@),
                                        ..st0.doc.items[c as int]
                                    }));
                                    assert(state_of(headers@, items@, groups@, names@, cur)
                                        =~~= (LinkState {
                                        doc: DocV {
                                            items: st0.doc.items.update(
                                                c as int,
                                                ItemV {
                                                    descs: st0.doc.items[c as int].descs.push(t@),
                                                    ..st0.doc.items[c as int]
                                                },
                                            ),
                                            ..st0.doc
                                        },
                                        ..st0
                                    }));
                                }
                            }
                        },
                    }
                },
            }
            k += 1;
        }
        let d = Document { headers, items, groups, names };
        proof {
            match spec_compile(evs) {
                Ok(st) => {
                    assert(d@ =~~= st.doc);
                },
                Err(_) => {},
            }
        }
        Ok(d)
    }
}

} // verus!
