//! Writing the ordinary function item.
//!
//! The ordinary item is made of the tokens of the item that was read.  Only
//! the return clause is rewritten, and a declaration may be put at the start
//! of the body.

use crate::fn_arg_ret::{ArgCaptured, FnArgRet};
use crate::item_fn::{ItemFn, ItemFnView};
use crate::named::{item_start, lemma_item_ends, lemma_item_starts, linked};
use crate::return_type::{
    bound_of, lemma_bound_of_items, ReturnTypeView, SimpleReturn, SimpleReturnView,
};
use crate::token::{Delimiter, Span, Token, TokenView};
use vstd::prelude::*;

verus! {

/// The tokens of the elements of a tuple from the `k`th on.  Each element but
/// the last is written with the token after it, the comma.  The last is
/// written with all that stands before `close`, the closing parenthesis: a
/// comma after the last element stays.
pub open spec fn tuple_elems(t: Seq<TokenView>, elems: Seq<Span>, k: int, close: int) -> Seq<
    TokenView,
>
    decreases elems.len() - k,
{
    if k < 0 || k >= elems.len() {
        Seq::empty()
    } else if k == elems.len() - 1 {
        t.subrange(elems[k].start as int, close)
    } else {
        t.subrange(elems[k].start as int, elems[k].end + 1) + tuple_elems(t, elems, k + 1, close)
    }
}

/// The return clause of the ordinary item: nothing; or the arrow and the one
/// type; or the arrow and, within the parentheses of the capture list, the
/// types of its items.
pub open spec fn return_tokens(t: Seq<TokenView>, simple: SimpleReturnView) -> Seq<TokenView> {
    match simple {
        SimpleReturnView::Default => Seq::empty(),
        SimpleReturnView::Single { arrow, ty } => t.subrange(arrow as int, arrow + 2) + ty.of(t),
        SimpleReturnView::Tuple { arrow, paren_token, elems } => t.subrange(
            arrow as int,
            arrow + 2,
        ) + t.subrange(paren_token.start as int, paren_token.start + 1) + tuple_elems(
            t,
            elems,
            0,
            paren_token.end - 1,
        ) + t.subrange(paren_token.end - 1, paren_token.end as int),
    }
}

/// The patterns of the captures from the `k`th on, with a comma between one
/// and the next.
pub open spec fn patterns(t: Seq<TokenView>, bound: Seq<ArgCaptured>, k: int) -> Seq<TokenView>
    decreases bound.len() - k,
{
    if k < 0 || k >= bound.len() {
        Seq::empty()
    } else if k == bound.len() - 1 {
        bound[k].pat.of(t)
    } else {
        bound[k].pat.of(t) + seq![TokenView::mark(","@)] + patterns(t, bound, k + 1)
    }
}

/// The types of the captures from the `k`th on, with a comma between one and
/// the next.
pub open spec fn types(t: Seq<TokenView>, bound: Seq<ArgCaptured>, k: int) -> Seq<TokenView>
    decreases bound.len() - k,
{
    if k < 0 || k >= bound.len() {
        Seq::empty()
    } else if k == bound.len() - 1 {
        bound[k].ty.of(t)
    } else {
        bound[k].ty.of(t) + seq![TokenView::mark(","@)] + types(t, bound, k + 1)
    }
}

/// The declaration of one capture: `let`, the pattern, a colon, the type and
/// a semicolon.
pub open spec fn single_declaration(t: Seq<TokenView>, captured: ArgCaptured) -> Seq<TokenView> {
    seq![TokenView::word("let"@)] + captured.pat.of(t) + seq![TokenView::mark(":"@)]
        + captured.ty.of(t) + seq![TokenView::mark(";"@)]
}

/// The declaration of two or more captures: `let`, the patterns in
/// parentheses, a colon, the types in parentheses and a semicolon.
pub open spec fn tuple_declaration(t: Seq<TokenView>, bound: Seq<ArgCaptured>) -> Seq<TokenView> {
    seq![TokenView::word("let"@), TokenView::opening(Delimiter::Parenthesis)] + patterns(
        t,
        bound,
        0,
    ) + seq![
        TokenView::closing(Delimiter::Parenthesis),
        TokenView::mark(":"@),
        TokenView::opening(Delimiter::Parenthesis),
    ] + types(t, bound, 0) + seq![
        TokenView::closing(Delimiter::Parenthesis),
        TokenView::mark(";"@),
    ]
}

/// The statement that declares the captures, without a value: nothing where
/// there is no capture; the one pattern with its type where there is one; the
/// tuple of the patterns with the tuple of their types where there are more.
pub open spec fn prefix_tokens(t: Seq<TokenView>, captures: Option<Seq<ArgCaptured>>) -> Seq<
    TokenView,
> {
    match captures {
        None => Seq::empty(),
        Some(bound) => {
            if bound.len() == 0 {
                Seq::empty()
            } else if bound.len() == 1 {
                single_declaration(t, bound[0])
            } else {
                tuple_declaration(t, bound)
            }
        },
    }
}

impl SimpleReturnView {
    /// Whether every position that the return type names lies within the
    /// first `len`, in order.
    pub open spec fn within(self, len: int) -> bool {
        match self {
            SimpleReturnView::Default => true,
            SimpleReturnView::Single { arrow, ty } => arrow + 2 <= len && ty.within(len),
            SimpleReturnView::Tuple { arrow, paren_token, elems } => {
                &&& arrow + 2 <= len
                &&& paren_token.start < paren_token.end <= len
                &&& forall|k: int|
                    0 <= k < elems.len() ==> (#[trigger] elems[k]).start <= elems[k].end
                        < paren_token.end
            },
        }
    }
}

/// Whether the pattern and the type of every capture lie within the first
/// `len` positions.
pub open spec fn captures_within(bound: Seq<ArgCaptured>, len: int) -> bool {
    forall|k: int|
        0 <= k < bound.len() ==> (#[trigger] bound[k]).pat.within(len) && bound[k].ty.within(len)
}

/// Appending a token to a vector appends its value to the vector's value.
pub proof fn lemma_push_view(before: Seq<Token>, after: Seq<Token>, token: Token)
    requires
        after == before.push(token),
    ensures
        Seq::new(after.len(), |i: int| after[i].deep_view()) == Seq::new(
            before.len(),
            |i: int| before[i].deep_view(),
        ).push(token@),
{
    assert(Seq::new(after.len(), |i: int| after[i].deep_view()) =~= Seq::new(
        before.len(),
        |i: int| before[i].deep_view(),
    ).push(token@));
}

/// Appends one token.
fn put(out: &mut Vec<Token>, token: Token)
    ensures
        final(out).deep_view() == old(out).deep_view().push(token@),
{
    let ghost before = out@;
    out.push(token);
    proof {
        lemma_push_view(before, out@, token);
    }
}

/// Appends the tokens from `start` up to `end` as they are.
pub fn copy_range(tokens: &Vec<Token>, start: usize, end: usize, out: &mut Vec<Token>)
    requires
        start <= end <= tokens.len(),
    ensures
        final(out).deep_view() == old(out).deep_view() + tokens.deep_view().subrange(
            start as int,
            end as int,
        ),
{
    let ghost t = tokens.deep_view();
    let ghost before = out.deep_view();
    let mut i: usize = start;
    proof {
        assert(before + t.subrange(start as int, start as int) =~= before);
    }
    while i < end
        invariant
            start <= i <= end <= tokens.len(),
            t == tokens.deep_view(),
            out.deep_view() == before + t.subrange(start as int, i as int),
        decreases end - i,
    {
        put(out, tokens[i].clone());
        proof {
            assert(t.subrange(start as int, i as int).push(t[i as int]) =~= t.subrange(
                start as int,
                i + 1,
            ));
            assert((before + t.subrange(start as int, i as int)).push(t[i as int]) =~= before
                + t.subrange(start as int, i + 1));
        }
        i = i + 1;
    }
}

/// Appends the return clause of the ordinary item.
pub fn emit_return(tokens: &Vec<Token>, simple: &SimpleReturn, out: &mut Vec<Token>)
    requires
        simple@.within(tokens.len() as int),
    ensures
        final(out).deep_view() == old(out).deep_view() + return_tokens(
            tokens.deep_view(),
            simple@,
        ),
{
    let ghost t = tokens.deep_view();
    let ghost before = out.deep_view();
    match simple {
        SimpleReturn::Default => {
            proof {
                assert(before + Seq::<TokenView>::empty() =~= before);
            }
        },
        SimpleReturn::Single { arrow, ty } => {
            copy_range(tokens, *arrow, *arrow + 2, out);
            copy_range(tokens, ty.start, ty.end, out);
            proof {
                assert(out.deep_view() =~= before + return_tokens(t, simple@));
            }
        },
        SimpleReturn::Tuple { arrow, paren_token, elems } => {
            let close: usize = paren_token.end - 1;
            copy_range(tokens, *arrow, *arrow + 2, out);
            copy_range(tokens, paren_token.start, paren_token.start + 1, out);
            let ghost opened = out.deep_view();
            let n: usize = elems.len();
            let mut k: usize = 0;
            proof {
                assert(opened + Seq::<TokenView>::empty() =~= opened);
                if n == 0 {
                    assert(tuple_elems(t, elems@, 0, close as int) =~= Seq::<TokenView>::empty());
                }
            }
            while k < n
                invariant
                    k <= n == elems@.len(),
                    t == tokens.deep_view(),
                    close + 1 == paren_token.end <= tokens.len(),
                    forall|j: int|
                        0 <= j < elems@.len() ==> (#[trigger] elems@[j]).start <= elems@[j].end
                            < paren_token.end,
                    out.deep_view() + tuple_elems(t, elems@, k as int, close as int) == opened
                        + tuple_elems(t, elems@, 0, close as int),
                decreases n - k,
            {
                let ghost so_far = out.deep_view();
                let elem = elems[k];
                if k + 1 == n {
                    copy_range(tokens, elem.start, close, out);
                    proof {
                        assert(tuple_elems(t, elems@, k + 1, close as int) =~= Seq::<
                            TokenView,
                        >::empty());
                        assert(out.deep_view() + tuple_elems(t, elems@, k + 1, close as int)
                            =~= so_far + tuple_elems(t, elems@, k as int, close as int));
                    }
                } else {
                    copy_range(tokens, elem.start, elem.end + 1, out);
                    proof {
                        assert(out.deep_view() + tuple_elems(t, elems@, k + 1, close as int)
                            =~= so_far + tuple_elems(t, elems@, k as int, close as int));
                    }
                }
                k = k + 1;
            }
            copy_range(tokens, close, close + 1, out);
            proof {
                assert(tuple_elems(t, elems@, n as int, close as int) =~= Seq::<
                    TokenView,
                >::empty());
                assert(out.deep_view() =~= before + return_tokens(t, simple@));
            }
        },
    }
}

/// Appends the patterns of the captures, with commas between them.
fn emit_patterns(tokens: &Vec<Token>, bound: &Vec<ArgCaptured>, out: &mut Vec<Token>)
    requires
        captures_within(bound@, tokens.len() as int),
    ensures
        final(out).deep_view() == old(out).deep_view() + patterns(tokens.deep_view(), bound@, 0),
{
    let ghost t = tokens.deep_view();
    let ghost before = out.deep_view();
    let n: usize = bound.len();
    let mut k: usize = 0;
    while k < n
        invariant
            k <= n == bound@.len(),
            t == tokens.deep_view(),
            captures_within(bound@, tokens.len() as int),
            out.deep_view() + patterns(t, bound@, k as int) == before + patterns(t, bound@, 0),
        decreases n - k,
    {
        let ghost so_far = out.deep_view();
        let captured = bound[k];
        copy_range(tokens, captured.pat.start, captured.pat.end, out);
        if k + 1 < n {
            put(out, Token::punct(",", false));
        }
        proof {
            assert(out.deep_view() + patterns(t, bound@, k + 1) =~= so_far + patterns(
                t,
                bound@,
                k as int,
            ));
        }
        k = k + 1;
    }
    proof {
        assert(out.deep_view() + Seq::<TokenView>::empty() =~= out.deep_view());
    }
}

/// Appends the types of the captures, with commas between them.
fn emit_types(tokens: &Vec<Token>, bound: &Vec<ArgCaptured>, out: &mut Vec<Token>)
    requires
        captures_within(bound@, tokens.len() as int),
    ensures
        final(out).deep_view() == old(out).deep_view() + types(tokens.deep_view(), bound@, 0),
{
    let ghost t = tokens.deep_view();
    let ghost before = out.deep_view();
    let n: usize = bound.len();
    let mut k: usize = 0;
    while k < n
        invariant
            k <= n == bound@.len(),
            t == tokens.deep_view(),
            captures_within(bound@, tokens.len() as int),
            out.deep_view() + types(t, bound@, k as int) == before + types(t, bound@, 0),
        decreases n - k,
    {
        let ghost so_far = out.deep_view();
        let captured = bound[k];
        copy_range(tokens, captured.ty.start, captured.ty.end, out);
        if k + 1 < n {
            put(out, Token::punct(",", false));
        }
        proof {
            assert(out.deep_view() + types(t, bound@, k + 1) =~= so_far + types(
                t,
                bound@,
                k as int,
            ));
        }
        k = k + 1;
    }
    proof {
        assert(out.deep_view() + Seq::<TokenView>::empty() =~= out.deep_view());
    }
}

/// Appends the statement that declares the captures.
pub fn emit_prefix(tokens: &Vec<Token>, captures: &Option<Vec<ArgCaptured>>, out: &mut Vec<Token>)
    requires
        captures matches Some(bound) ==> captures_within(bound@, tokens.len() as int),
    ensures
        final(out).deep_view() == old(out).deep_view() + prefix_tokens(
            tokens.deep_view(),
            match *captures {
                Some(bound) => Some(bound@),
                None => None,
            },
        ),
{
    let ghost t = tokens.deep_view();
    let ghost before = out.deep_view();
    match captures {
        None => {
            proof {
                assert(before + Seq::<TokenView>::empty() =~= before);
            }
        },
        Some(bound) => {
            if bound.len() == 0 {
                proof {
                    assert(before + Seq::<TokenView>::empty() =~= before);
                }
            } else if bound.len() == 1 {
                let captured = bound[0];
                put(out, Token::ident("let"));
                copy_range(tokens, captured.pat.start, captured.pat.end, out);
                put(out, Token::punct(":", false));
                copy_range(tokens, captured.ty.start, captured.ty.end, out);
                put(out, Token::punct(";", false));
                proof {
                    assert(out.deep_view() =~= before + single_declaration(t, bound@[0]));
                }
            } else {
                put(out, Token::ident("let"));
                put(out, Token::open(Delimiter::Parenthesis));
                emit_patterns(tokens, bound, out);
                put(out, Token::close(Delimiter::Parenthesis));
                put(out, Token::punct(":", false));
                put(out, Token::open(Delimiter::Parenthesis));
                emit_types(tokens, bound, out);
                put(out, Token::close(Delimiter::Parenthesis));
                put(out, Token::punct(";", false));
                proof {
                    assert(out.deep_view() =~= before + tuple_declaration(t, bound@));
                }
            }
        },
    }
}

/// What a function item is turned into before it is written: the return
/// type of the ordinary item, and the captures that its body has to declare.
#[derive(Debug, PartialEq, Eq)]
pub struct Transformed {
    pub output: SimpleReturn,
    pub prefix: Option<Vec<ArgCaptured>>,
}

/// The mathematical value of a [`Transformed`].
pub struct TransformedView {
    pub output: SimpleReturnView,
    pub prefix: Option<Seq<ArgCaptured>>,
}

impl View for Transformed {
    type V = TransformedView;

    open spec fn view(&self) -> TransformedView {
        TransformedView {
            output: self.output@,
            prefix: match self.prefix {
                Some(bound) => Some(bound@),
                None => None,
            },
        }
    }
}

impl ItemFnView {
    /// What the item is turned into: its return clause collapsed to a return
    /// type, and the named captures of the clause.
    pub open spec fn transformed(self) -> TransformedView {
        TransformedView { output: self.decl.output.simple(), prefix: self.decl.output.captures() }
    }
}

/// The ordinary function item: the tokens of the item up to the end of its
/// parameters; the return clause of the ordinary item; the tokens from the
/// `where` clause to the opening brace of the body; the declaration of the
/// captures; the rest of the body.
pub open spec fn emitted(t: Seq<TokenView>, item: ItemFnView) -> Seq<TokenView> {
    t.subrange(0, item.decl.paren_token.end as int) + return_tokens(t, item.transformed().output)
        + t.subrange(item.decl.generics.where_clause.start as int, item.block.start + 1)
        + prefix_tokens(t, item.transformed().prefix) + t.subrange(
        item.block.start + 1,
        t.len() as int,
    )
}

/// The return type of a well-formed return clause names positions within
/// the tokens, and so do its captures.
pub proof fn lemma_well_formed_within(clause: ReturnTypeView, from: int, to: int, len: int)
    requires
        clause.well_formed(from, to, len),
        0 <= from,
    ensures
        clause.simple().within(len),
        captures_within(bound_of(clause.items()), len),
        from <= to,
{
    match clause {
        ReturnTypeView::Named(arrow, named) => {
            let items = named.outputs;
            let first = named.paren_token.start + 1;
            let close = named.paren_token.end - 1;
            assert forall|k: int| 0 <= k < items.len() implies first <= item_start(
                #[trigger] items[k],
            ) <= items[k].ty().start < items[k].ty().end <= close by {
                lemma_item_starts(items, first, close, k);
                lemma_item_ends(items, first, close, k);
            }
            assert forall|k: int| 0 <= k < bound_of(items).len() implies (#[trigger] bound_of(
                items,
            )[k]).pat.within(len) && bound_of(items)[k].ty.within(len) by {
                lemma_bound_of_items(items, k);
                let j = choose|j: int|
                    0 <= j < items.len() && #[trigger] items[j] == FnArgRet::Captured(
                        bound_of(items)[k],
                    );
                lemma_item_starts(items, first, close, j);
                lemma_item_ends(items, first, close, j);
                assert(linked(items, first, j));
            }
        },
        _ => {},
    }
}

impl ItemFn {
    /// Works out what the item is turned into.  Nothing is checked here: not
    /// that the body gives every capture a value, nor that what it returns
    /// has as many parts as the return type.
    pub fn transform(&self) -> (r: Transformed)
        ensures
            r@ == self@.transformed(),
    {
        Transformed { output: self.decl.output.simple(), prefix: self.decl.output.captures() }
    }

    /// Writes the ordinary function item that this item stands for.
    ///
    /// `tokens` are the tokens that the item was read from.
    pub fn to_tokens(&self, tokens: &Vec<Token>) -> (out: Vec<Token>)
        requires
            self@.well_formed(tokens.len() as int),
        ensures
            out.deep_view() == emitted(tokens.deep_view(), self@),
    {
        let ghost t = tokens.deep_view();
        proof {
            lemma_well_formed_within(
                self.decl.output@,
                self.decl.paren_token.end as int,
                self.decl.generics.where_clause.start as int,
                tokens.len() as int,
            );
        }
        let transformed = self.transform();
        let mut out: Vec<Token> = Vec::new();
        proof {
            assert(out.deep_view() =~= Seq::<TokenView>::empty());
        }
        copy_range(tokens, 0, self.decl.paren_token.end, &mut out);
        emit_return(tokens, &transformed.output, &mut out);
        copy_range(tokens, self.decl.generics.where_clause.start, self.block.start + 1, &mut out);
        emit_prefix(tokens, &transformed.prefix, &mut out);
        copy_range(tokens, self.block.start + 1, tokens.len(), &mut out);
        proof {
            assert(out.deep_view() =~= emitted(t, self@));
        }
        out
    }
}

} // verus!
