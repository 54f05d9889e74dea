//! Where the tokens of the ordinary item come from.
//!
//! Most tokens of the ordinary item are copies of tokens of the item that was
//! read.  A caller that keeps more of a token than the library does, such as
//! its place in a file, can carry that over with the help of
//! [`ItemFn::sources`]: for every token of the ordinary item it says which
//! token it is a copy of, if of any.

use crate::emit::{
    captures_within, emitted, lemma_well_formed_within, patterns, prefix_tokens, return_tokens,
    tuple_elems, types,
};
use crate::fn_arg_ret::ArgCaptured;
use crate::item_fn::{ItemFn, ItemFnView};
use crate::return_type::{SimpleReturn, SimpleReturnView};
use crate::token::{Span, TokenView};
use vstd::prelude::*;

verus! {

/// The sources of the copies of the tokens from `from` up to `to`.
pub open spec fn copied(from: int, to: int) -> Seq<Option<usize>> {
    Seq::new((to - from) as nat, |k: int| Some((from + k) as usize))
}

/// The sources of `n` new tokens: none.
pub open spec fn fresh(n: nat) -> Seq<Option<usize>> {
    Seq::new(n, |k: int| None::<usize>)
}

/// The sources of the elements of a tuple from the `k`th on.
pub open spec fn elem_sources(elems: Seq<Span>, k: int, close: int) -> Seq<Option<usize>>
    decreases elems.len() - k,
{
    if k < 0 || k >= elems.len() {
        Seq::empty()
    } else if k == elems.len() - 1 {
        copied(elems[k].start as int, close)
    } else {
        copied(elems[k].start as int, elems[k].end + 1) + elem_sources(elems, k + 1, close)
    }
}

/// The sources of the return clause of the ordinary item: all of it is
/// copied.
pub open spec fn return_sources(simple: SimpleReturnView) -> Seq<Option<usize>> {
    match simple {
        SimpleReturnView::Default => Seq::empty(),
        SimpleReturnView::Single { arrow, ty } => copied(arrow as int, arrow + 2) + copied(
            ty.start as int,
            ty.end as int,
        ),
        SimpleReturnView::Tuple { arrow, paren_token, elems } => copied(arrow as int, arrow + 2)
            + copied(paren_token.start as int, paren_token.start + 1) + elem_sources(
            elems,
            0,
            paren_token.end - 1,
        ) + copied(paren_token.end - 1, paren_token.end as int),
    }
}

/// The sources of the patterns of the captures from the `k`th on: the
/// patterns are copied, the commas between them are new.
pub open spec fn pattern_sources(bound: Seq<ArgCaptured>, k: int) -> Seq<Option<usize>>
    decreases bound.len() - k,
{
    if k < 0 || k >= bound.len() {
        Seq::empty()
    } else if k == bound.len() - 1 {
        copied(bound[k].pat.start as int, bound[k].pat.end as int)
    } else {
        copied(bound[k].pat.start as int, bound[k].pat.end as int) + fresh(1) + pattern_sources(
            bound,
            k + 1,
        )
    }
}

/// The sources of the types of the captures from the `k`th on: the types are
/// copied, the commas between them are new.
pub open spec fn type_sources(bound: Seq<ArgCaptured>, k: int) -> Seq<Option<usize>>
    decreases bound.len() - k,
{
    if k < 0 || k >= bound.len() {
        Seq::empty()
    } else if k == bound.len() - 1 {
        copied(bound[k].ty.start as int, bound[k].ty.end as int)
    } else {
        copied(bound[k].ty.start as int, bound[k].ty.end as int) + fresh(1) + type_sources(
            bound,
            k + 1,
        )
    }
}

/// The sources of the declaration of the captures: the patterns and the
/// types are copied, everything else is new.
pub open spec fn prefix_sources(captures: Option<Seq<ArgCaptured>>) -> Seq<Option<usize>> {
    match captures {
        None => Seq::empty(),
        Some(bound) => {
            if bound.len() == 0 {
                Seq::empty()
            } else if bound.len() == 1 {
                fresh(1) + copied(bound[0].pat.start as int, bound[0].pat.end as int) + fresh(1)
                    + copied(bound[0].ty.start as int, bound[0].ty.end as int) + fresh(1)
            } else {
                fresh(2) + pattern_sources(bound, 0) + fresh(3) + type_sources(bound, 0) + fresh(2)
            }
        },
    }
}

/// The sources of the tokens of the ordinary item, one for each token and in
/// the order of the tokens, for an item that was read from `len` tokens.
pub open spec fn sources(len: int, item: ItemFnView) -> Seq<Option<usize>> {
    copied(0, item.decl.paren_token.end as int) + return_sources(item.transformed().output)
        + copied(item.decl.generics.where_clause.start as int, item.block.start + 1)
        + prefix_sources(item.transformed().prefix) + copied(item.block.start + 1, len)
}

/// Whether the sources say of the tokens `out` where in `t` they come from:
/// there is one source for each token, and a token with a source is the
/// token of `t` at that position.
pub open spec fn agrees(t: Seq<TokenView>, out: Seq<TokenView>, from: Seq<Option<usize>>) -> bool {
    &&& from.len() == out.len()
    &&& forall|k: int|
        0 <= k < out.len() ==> ((#[trigger] from[k]) matches Some(i) ==> i < t.len() && out[k]
            == t[i as int])
}

/// Sources that agree with two runs of tokens agree with the two runs put
/// together.
pub proof fn lemma_agrees_both(
    t: Seq<TokenView>,
    a: Seq<TokenView>,
    from_a: Seq<Option<usize>>,
    b: Seq<TokenView>,
    from_b: Seq<Option<usize>>,
)
    requires
        agrees(t, a, from_a),
        agrees(t, b, from_b),
    ensures
        agrees(t, a + b, from_a + from_b),
{
    assert forall|k: int| 0 <= k < (a + b).len() implies ((#[trigger] (from_a + from_b)[k]) matches Some(
        i,
    ) ==> i < t.len() && (a + b)[k] == t[i as int]) by {
        if k < a.len() {
            assert((from_a + from_b)[k] == from_a[k]);
        } else {
            assert((from_a + from_b)[k] == from_b[k - a.len()]);
        }
    }
}

/// The tokens of a range come from the positions of the range.
pub proof fn lemma_agrees_copied(t: Seq<TokenView>, from: int, to: int)
    requires
        0 <= from <= to <= t.len() <= usize::MAX,
    ensures
        agrees(t, t.subrange(from, to), copied(from, to)),
{
}

/// New tokens come from nowhere.
pub proof fn lemma_agrees_fresh(t: Seq<TokenView>, out: Seq<TokenView>)
    ensures
        agrees(t, out, fresh(out.len())),
{
}

/// The elements of a tuple come from where their sources say.
pub proof fn lemma_agrees_elems(t: Seq<TokenView>, elems: Seq<Span>, k: int, close: int)
    requires
        t.len() <= usize::MAX,
        0 <= close < t.len(),
        forall|j: int| 0 <= j < elems.len() ==> (#[trigger] elems[j]).start <= elems[j].end <= close,
    ensures
        agrees(t, tuple_elems(t, elems, k, close), elem_sources(elems, k, close)),
    decreases elems.len() - k,
{
    if 0 <= k < elems.len() {
        if k == elems.len() - 1 {
            lemma_agrees_copied(t, elems[k].start as int, close);
        } else {
            lemma_agrees_copied(t, elems[k].start as int, elems[k].end + 1);
            lemma_agrees_elems(t, elems, k + 1, close);
            lemma_agrees_both(
                t,
                t.subrange(elems[k].start as int, elems[k].end + 1),
                copied(elems[k].start as int, elems[k].end + 1),
                tuple_elems(t, elems, k + 1, close),
                elem_sources(elems, k + 1, close),
            );
        }
    }
}

/// The return clause of the ordinary item comes from where its sources say.
pub proof fn lemma_agrees_return(t: Seq<TokenView>, simple: SimpleReturnView)
    requires
        t.len() <= usize::MAX,
        simple.within(t.len() as int),
    ensures
        agrees(t, return_tokens(t, simple), return_sources(simple)),
{
    match simple {
        SimpleReturnView::Default => {},
        SimpleReturnView::Single { arrow, ty } => {
            lemma_agrees_copied(t, arrow as int, arrow + 2);
            lemma_agrees_copied(t, ty.start as int, ty.end as int);
            lemma_agrees_both(
                t,
                t.subrange(arrow as int, arrow + 2),
                copied(arrow as int, arrow + 2),
                ty.of(t),
                copied(ty.start as int, ty.end as int),
            );
        },
        SimpleReturnView::Tuple { arrow, paren_token, elems } => {
            let open = paren_token.start as int;
            let close = paren_token.end - 1;
            lemma_agrees_copied(t, arrow as int, arrow + 2);
            lemma_agrees_copied(t, open, open + 1);
            lemma_agrees_elems(t, elems, 0, close);
            lemma_agrees_copied(t, close, close + 1);
            let a = t.subrange(arrow as int, arrow + 2);
            let b = t.subrange(open, open + 1);
            let c = tuple_elems(t, elems, 0, close);
            let d = t.subrange(close, close + 1);
            lemma_agrees_both(t, a, copied(arrow as int, arrow + 2), b, copied(open, open + 1));
            lemma_agrees_both(
                t,
                a + b,
                copied(arrow as int, arrow + 2) + copied(open, open + 1),
                c,
                elem_sources(elems, 0, close),
            );
            lemma_agrees_both(
                t,
                a + b + c,
                copied(arrow as int, arrow + 2) + copied(open, open + 1) + elem_sources(
                    elems,
                    0,
                    close,
                ),
                d,
                copied(close, close + 1),
            );
        },
    }
}

/// The patterns and the types of a declaration come from where their
/// sources say.
pub proof fn lemma_agrees_declared(t: Seq<TokenView>, bound: Seq<ArgCaptured>, k: int)
    requires
        t.len() <= usize::MAX,
        captures_within(bound, t.len() as int),
    ensures
        agrees(t, patterns(t, bound, k), pattern_sources(bound, k)),
        agrees(t, types(t, bound, k), type_sources(bound, k)),
    decreases bound.len() - k,
{
    if 0 <= k < bound.len() {
        let pat = bound[k].pat;
        let ty = bound[k].ty;
        lemma_agrees_copied(t, pat.start as int, pat.end as int);
        lemma_agrees_copied(t, ty.start as int, ty.end as int);
        if k < bound.len() - 1 {
            let comma = seq![TokenView::mark(","@)];
            lemma_agrees_declared(t, bound, k + 1);
            lemma_agrees_fresh(t, comma);
            lemma_agrees_both(
                t,
                pat.of(t),
                copied(pat.start as int, pat.end as int),
                comma,
                fresh(1),
            );
            lemma_agrees_both(
                t,
                pat.of(t) + comma,
                copied(pat.start as int, pat.end as int) + fresh(1),
                patterns(t, bound, k + 1),
                pattern_sources(bound, k + 1),
            );
            lemma_agrees_both(t, ty.of(t), copied(ty.start as int, ty.end as int), comma, fresh(1));
            lemma_agrees_both(
                t,
                ty.of(t) + comma,
                copied(ty.start as int, ty.end as int) + fresh(1),
                types(t, bound, k + 1),
                type_sources(bound, k + 1),
            );
        }
    }
}

/// The declaration of the captures comes from where its sources say.
pub proof fn lemma_agrees_prefix(t: Seq<TokenView>, captures: Option<Seq<ArgCaptured>>)
    requires
        t.len() <= usize::MAX,
        captures matches Some(bound) ==> captures_within(bound, t.len() as int),
    ensures
        agrees(t, prefix_tokens(t, captures), prefix_sources(captures)),
{
    match captures {
        Some(bound) => {
            if bound.len() == 1 {
                let pat = bound[0].pat;
                let ty = bound[0].ty;
                let a = seq![TokenView::word("let"@)];
                let b = seq![TokenView::mark(":"@)];
                let c = seq![TokenView::mark(";"@)];
                lemma_agrees_fresh(t, a);
                lemma_agrees_fresh(t, b);
                lemma_agrees_fresh(t, c);
                lemma_agrees_copied(t, pat.start as int, pat.end as int);
                lemma_agrees_copied(t, ty.start as int, ty.end as int);
                let from_pat = copied(pat.start as int, pat.end as int);
                let from_ty = copied(ty.start as int, ty.end as int);
                lemma_agrees_both(t, a, fresh(1), pat.of(t), from_pat);
                lemma_agrees_both(t, a + pat.of(t), fresh(1) + from_pat, b, fresh(1));
                lemma_agrees_both(
                    t,
                    a + pat.of(t) + b,
                    fresh(1) + from_pat + fresh(1),
                    ty.of(t),
                    from_ty,
                );
                lemma_agrees_both(
                    t,
                    a + pat.of(t) + b + ty.of(t),
                    fresh(1) + from_pat + fresh(1) + from_ty,
                    c,
                    fresh(1),
                );
            } else if bound.len() > 1 {
                let a = seq![
                    TokenView::word("let"@),
                    TokenView::opening(crate::token::Delimiter::Parenthesis),
                ];
                let b = seq![
                    TokenView::closing(crate::token::Delimiter::Parenthesis),
                    TokenView::mark(":"@),
                    TokenView::opening(crate::token::Delimiter::Parenthesis),
                ];
                let c = seq![
                    TokenView::closing(crate::token::Delimiter::Parenthesis),
                    TokenView::mark(";"@),
                ];
                let p = patterns(t, bound, 0);
                let q = types(t, bound, 0);
                lemma_agrees_fresh(t, a);
                lemma_agrees_fresh(t, b);
                lemma_agrees_fresh(t, c);
                lemma_agrees_declared(t, bound, 0);
                lemma_agrees_both(t, a, fresh(2), p, pattern_sources(bound, 0));
                lemma_agrees_both(t, a + p, fresh(2) + pattern_sources(bound, 0), b, fresh(3));
                lemma_agrees_both(
                    t,
                    a + p + b,
                    fresh(2) + pattern_sources(bound, 0) + fresh(3),
                    q,
                    type_sources(bound, 0),
                );
                lemma_agrees_both(
                    t,
                    a + p + b + q,
                    fresh(2) + pattern_sources(bound, 0) + fresh(3) + type_sources(bound, 0),
                    c,
                    fresh(2),
                );
            }
        },
        None => {},
    }
}

/// Every token of the ordinary item has a source, and a token with a source
/// is the token of the item at that position, as it was read.
pub proof fn sources_name_the_copies(t: Seq<TokenView>, item: ItemFnView)
    requires
        t.len() <= usize::MAX,
        item.well_formed(t.len() as int),
    ensures
        agrees(t, emitted(t, item), sources(t.len() as int, item)),
{
    let start = item.decl.paren_token.end as int;
    let end = item.decl.generics.where_clause.start as int;
    let body = item.block.start as int;
    let len = t.len() as int;
    lemma_well_formed_within(item.decl.output, start, end, len);
    let a = t.subrange(0, start);
    let b = return_tokens(t, item.transformed().output);
    let c = t.subrange(end, body + 1);
    let d = prefix_tokens(t, item.transformed().prefix);
    let e = t.subrange(body + 1, len);
    let from_b = return_sources(item.transformed().output);
    let from_d = prefix_sources(item.transformed().prefix);
    lemma_agrees_copied(t, 0, start);
    lemma_agrees_return(t, item.transformed().output);
    lemma_agrees_copied(t, end, body + 1);
    lemma_agrees_prefix(t, item.transformed().prefix);
    lemma_agrees_copied(t, body + 1, len);
    lemma_agrees_both(t, a, copied(0, start), b, from_b);
    lemma_agrees_both(t, a + b, copied(0, start) + from_b, c, copied(end, body + 1));
    lemma_agrees_both(
        t,
        a + b + c,
        copied(0, start) + from_b + copied(end, body + 1),
        d,
        from_d,
    );
    lemma_agrees_both(
        t,
        a + b + c + d,
        copied(0, start) + from_b + copied(end, body + 1) + from_d,
        e,
        copied(body + 1, len),
    );
}

/// Appends the sources of the copies of the tokens from `from` up to `to`.
fn trace_copied(from: usize, to: usize, out: &mut Vec<Option<usize>>)
    requires
        from <= to,
    ensures
        final(out)@ == old(out)@ + copied(from as int, to as int),
{
    let ghost before = out@;
    let mut i: usize = from;
    proof {
        assert(before + copied(from as int, from as int) =~= before);
    }
    while i < to
        invariant
            from <= i <= to,
            out@ == before + copied(from as int, i as int),
        decreases to - i,
    {
        out.push(Some(i));
        proof {
            assert((before + copied(from as int, i as int)).push(Some(i)) =~= before + copied(
                from as int,
                i + 1,
            ));
        }
        i = i + 1;
    }
}

/// Appends the sources of `n` new tokens.
fn trace_fresh(n: usize, out: &mut Vec<Option<usize>>)
    ensures
        final(out)@ == old(out)@ + fresh(n as nat),
{
    let ghost before = out@;
    let mut i: usize = 0;
    proof {
        assert(before + fresh(0) =~= before);
    }
    while i < n
        invariant
            i <= n,
            out@ == before + fresh(i as nat),
        decreases n - i,
    {
        out.push(None);
        proof {
            assert((before + fresh(i as nat)).push(None::<usize>) =~= before + fresh(
                (i + 1) as nat,
            ));
        }
        i = i + 1;
    }
}

/// Appends the sources of the return clause of the ordinary item.
fn trace_return(simple: &SimpleReturn, len: usize, out: &mut Vec<Option<usize>>)
    requires
        simple@.within(len as int),
    ensures
        final(out)@ == old(out)@ + return_sources(simple@),
{
    let ghost before = out@;
    match simple {
        SimpleReturn::Default => {
            proof {
                assert(before + Seq::<Option<usize>>::empty() =~= before);
            }
        },
        SimpleReturn::Single { arrow, ty } => {
            trace_copied(*arrow, *arrow + 2, out);
            trace_copied(ty.start, ty.end, out);
            proof {
                assert(out@ =~= before + return_sources(simple@));
            }
        },
        SimpleReturn::Tuple { arrow, paren_token, elems } => {
            let ghost view = simple@;
            assert forall|j: int| 0 <= j < elems@.len() implies (#[trigger] elems@[j]).start
                <= elems@[j].end < paren_token.end by {
                assert(view.within(len as int));
                assert(view->Tuple_elems == elems@);
                assert(view->Tuple_paren_token == *paren_token);
                assert(view->Tuple_elems[j].start <= view->Tuple_elems[j].end);
            }
            let close: usize = paren_token.end - 1;
            trace_copied(*arrow, *arrow + 2, out);
            trace_copied(paren_token.start, paren_token.start + 1, out);
            let ghost opened = out@;
            let n: usize = elems.len();
            let mut k: usize = 0;
            proof {
                assert(opened + Seq::<Option<usize>>::empty() =~= opened);
                if n == 0 {
                    assert(elem_sources(elems@, 0, close as int) =~= Seq::<
                        Option<usize>,
                    >::empty());
                }
            }
            while k < n
                invariant
                    k <= n == elems@.len(),
                    close + 1 == paren_token.end <= len,
                    forall|j: int|
                        0 <= j < elems@.len() ==> (#[trigger] elems@[j]).start <= elems@[j].end
                            < paren_token.end,
                    out@ + elem_sources(elems@, k as int, close as int) == opened + elem_sources(
                        elems@,
                        0,
                        close as int,
                    ),
                decreases n - k,
            {
                let ghost so_far = out@;
                let elem = elems[k];
                if k + 1 == n {
                    trace_copied(elem.start, close, out);
                    proof {
                        assert(elem_sources(elems@, k + 1, close as int) =~= Seq::<
                            Option<usize>,
                        >::empty());
                        assert(out@ + elem_sources(elems@, k + 1, close as int) =~= so_far
                            + elem_sources(elems@, k as int, close as int));
                    }
                } else {
                    trace_copied(elem.start, elem.end + 1, out);
                    proof {
                        assert(out@ + elem_sources(elems@, k + 1, close as int) =~= so_far
                            + elem_sources(elems@, k as int, close as int));
                    }
                }
                k = k + 1;
            }
            trace_copied(close, close + 1, out);
            proof {
                assert(elem_sources(elems@, n as int, close as int) =~= Seq::<
                    Option<usize>,
                >::empty());
                assert(out@ =~= before + return_sources(simple@));
            }
        },
    }
}

/// Appends the sources of the patterns of the captures.
fn trace_patterns(bound: &Vec<ArgCaptured>, len: usize, out: &mut Vec<Option<usize>>)
    requires
        captures_within(bound@, len as int),
    ensures
        final(out)@ == old(out)@ + pattern_sources(bound@, 0),
{
    let ghost before = out@;
    let n: usize = bound.len();
    let mut k: usize = 0;
    while k < n
        invariant
            k <= n == bound@.len(),
            captures_within(bound@, len as int),
            out@ + pattern_sources(bound@, k as int) == before + pattern_sources(bound@, 0),
        decreases n - k,
    {
        let ghost so_far = out@;
        let captured = bound[k];
        trace_copied(captured.pat.start, captured.pat.end, out);
        if k + 1 < n {
            trace_fresh(1, out);
        }
        proof {
            assert(out@ + pattern_sources(bound@, k + 1) =~= so_far + pattern_sources(
                bound@,
                k as int,
            ));
        }
        k = k + 1;
    }
    proof {
        assert(out@ + Seq::<Option<usize>>::empty() =~= out@);
    }
}

/// Appends the sources of the types of the captures.
fn trace_types(bound: &Vec<ArgCaptured>, len: usize, out: &mut Vec<Option<usize>>)
    requires
        captures_within(bound@, len as int),
    ensures
        final(out)@ == old(out)@ + type_sources(bound@, 0),
{
    let ghost before = out@;
    let n: usize = bound.len();
    let mut k: usize = 0;
    while k < n
        invariant
            k <= n == bound@.len(),
            captures_within(bound@, len as int),
            out@ + type_sources(bound@, k as int) == before + type_sources(bound@, 0),
        decreases n - k,
    {
        let ghost so_far = out@;
        let captured = bound[k];
        trace_copied(captured.ty.start, captured.ty.end, out);
        if k + 1 < n {
            trace_fresh(1, out);
        }
        proof {
            assert(out@ + type_sources(bound@, k + 1) =~= so_far + type_sources(bound@, k as int));
        }
        k = k + 1;
    }
    proof {
        assert(out@ + Seq::<Option<usize>>::empty() =~= out@);
    }
}

/// Appends the sources of the declaration of the captures.
fn trace_prefix(captures: &Option<Vec<ArgCaptured>>, len: usize, out: &mut Vec<Option<usize>>)
    requires
        captures matches Some(bound) ==> captures_within(bound@, len as int),
    ensures
        final(out)@ == old(out)@ + prefix_sources(
            match *captures {
                Some(bound) => Some(bound@),
                None => None,
            },
        ),
{
    let ghost before = out@;
    match captures {
        None => {
            proof {
                assert(before + Seq::<Option<usize>>::empty() =~= before);
            }
        },
        Some(bound) => {
            if bound.len() == 0 {
                proof {
                    assert(before + Seq::<Option<usize>>::empty() =~= before);
                }
            } else if bound.len() == 1 {
                let captured = bound[0];
                trace_fresh(1, out);
                trace_copied(captured.pat.start, captured.pat.end, out);
                trace_fresh(1, out);
                trace_copied(captured.ty.start, captured.ty.end, out);
                trace_fresh(1, out);
                proof {
                    assert(out@ =~= before + prefix_sources(Some(bound@)));
                }
            } else {
                trace_fresh(2, out);
                trace_patterns(bound, len, out);
                trace_fresh(3, out);
                trace_types(bound, len, out);
                trace_fresh(2, out);
                proof {
                    assert(out@ =~= before + prefix_sources(Some(bound@)));
                }
            }
        },
    }
}

impl ItemFn {
    /// Says where every token of the ordinary item comes from: the position
    /// of the token that it is a copy of, among the `len` tokens that the
    /// item was read from, or nothing for a token that is new.
    pub fn sources(&self, len: usize) -> (from: Vec<Option<usize>>)
        requires
            self@.well_formed(len as int),
        ensures
            from@ == sources(len as int, self@),
    {
        proof {
            lemma_well_formed_within(
                self.decl.output@,
                self.decl.paren_token.end as int,
                self.decl.generics.where_clause.start as int,
                len as int,
            );
        }
        let transformed = self.transform();
        let mut from: Vec<Option<usize>> = Vec::new();
        trace_copied(0, self.decl.paren_token.end, &mut from);
        trace_return(&transformed.output, len, &mut from);
        trace_copied(self.decl.generics.where_clause.start, self.block.start + 1, &mut from);
        trace_prefix(&transformed.prefix, len, &mut from);
        trace_copied(self.block.start + 1, len, &mut from);
        proof {
            assert(from@ =~= sources(len as int, self@));
        }
        from
    }
}

} // verus!
