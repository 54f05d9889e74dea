//! The body of a function item is not read.
//!
//! What is read of an item, but for the nesting of its brackets, depends on
//! the tokens of its signature alone.  The statements here say so part by
//! part: each part that is read from a sequence of tokens is the same when it
//! is read from the first tokens of the sequence only, as long as those hold
//! the part.

use crate::emit::{
    captures_within, emitted, lemma_well_formed_within, patterns, prefix_tokens, return_tokens,
    tuple_elems, types,
};
use crate::error::{ErrorKind, ParseError, Stage};
use crate::fn_arg_ret::{colon_after, ArgCaptured, FnArgRet};
use crate::fn_decl::{dots_before, is_variadic, parameter_list, parameters_at};
use crate::guarantees::{cuts, lemma_cuts_in_order};
use crate::item_fn::{
    body_at, head_at, item_at, item_of, keyword_at, lemma_item_at_well_formed,
    lemma_staged_bounds, outer_attributes, past, signature_at, signature_end, staged, ItemFnView,
};
use crate::named::{capture_list, Named};
use crate::nesting::{
    balanced, lemma_balanced_after_group, lemma_signature_balanced, lemma_signature_keeps_balance,
};
use crate::return_type::{arrow_at, plain_type_at, ReturnType, ReturnTypeView, SimpleReturnView};
use crate::rewritten;
use crate::syntax::{first_not_plain, grammar_end, ident_at, refused_at, remainder, Grammar};
use crate::token::{
    after_trees, close_from, first_unbalanced, index, lemma_close_from_any_end,
    lemma_close_from_bounds, matching_close, rendered, tree_count, tree_end, Delimiter, Span,
    TokenKind, TokenView,
};
use vstd::prelude::*;

verus! {

/// A scan for a closing bracket does not look at the tokens from `end` on.
pub proof fn lemma_close_from_local(
    t: Seq<TokenView>,
    cut: int,
    at: int,
    end: int,
    open: Seq<Delimiter>,
)
    requires
        end <= cut <= t.len(),
    ensures
        close_from(t, at, end, open) == close_from(t.take(cut), at, end, open),
    decreases end - at,
{
    if 0 <= at < end {
        match t[at].kind {
            TokenKind::Open(d) => lemma_close_from_local(t, cut, at + 1, end, open.push(d)),
            TokenKind::Close(d) => {
                if open.len() > 1 && open.last() == d {
                    lemma_close_from_local(t, cut, at + 1, end, open.drop_last());
                }
            },
            _ => lemma_close_from_local(t, cut, at + 1, end, open),
        }
    }
}

/// Where a token tree ends does not depend on the tokens from `end` on.
pub proof fn lemma_tree_end_local(t: Seq<TokenView>, cut: int, at: int, end: int)
    requires
        end <= cut <= t.len(),
    ensures
        tree_end(t, at, end) == tree_end(t.take(cut), at, end),
        matching_close(t, at, end) == matching_close(t.take(cut), at, end),
{
    if 0 <= at < end {
        match t[at].kind {
            TokenKind::Open(d) => lemma_close_from_local(t, cut, at + 1, end, seq![d]),
            _ => {},
        }
    }
}

/// A walk over whole token trees does not look at the tokens from `end` on.
pub proof fn lemma_after_trees_local(t: Seq<TokenView>, cut: int, at: int, end: int, n: nat)
    requires
        end <= cut <= t.len(),
    ensures
        after_trees(t, at, end, n) == after_trees(t.take(cut), at, end, n),
    decreases n,
{
    if n > 0 {
        lemma_tree_end_local(t, cut, at, end);
        match tree_end(t, at, end) {
            Some(next) => lemma_after_trees_local(t, cut, next, end, (n - 1) as nat),
            None => {},
        }
    }
}

/// How many whole token trees stand before `end` does not depend on the
/// tokens from `end` on.
pub proof fn lemma_tree_count_local(t: Seq<TokenView>, cut: int, at: int, end: int)
    requires
        end <= cut <= t.len(),
    ensures
        tree_count(t, at, end) == tree_count(t.take(cut), at, end),
    decreases end - at,
{
    if at < end {
        lemma_tree_end_local(t, cut, at, end);
        match tree_end(t, at, end) {
            Some(next) => {
                if at < next <= end {
                    lemma_tree_count_local(t, cut, next, end);
                }
            },
            None => {},
        }
    }
}

/// Where a part ends that the host grammar reads from the tokens before
/// `end` does not depend on the tokens from `end` on.
pub proof fn lemma_grammar_end_local(
    t: Seq<TokenView>,
    cut: int,
    at: int,
    end: int,
    grammar: Grammar,
)
    requires
        end <= cut <= t.len(),
    ensures
        grammar_end(t, at, end, grammar) == grammar_end(t.take(cut), at, end, grammar),
{
    if 0 <= at <= end {
        assert(t.subrange(at, end) =~= t.take(cut).subrange(at, end));
        lemma_tree_count_local(t, cut, at, end);
        let text = rendered(t.subrange(at, end));
        match (tree_count(t, at, end), remainder(grammar, text)) {
            (Some(n), Some(r)) => {
                if r <= n {
                    lemma_after_trees_local(t, cut, at, end, (n - r) as nat);
                }
            },
            _ => {},
        }
    }
}

/// A capture item that is read from the tokens before `end` does not depend
/// on the tokens from `end` on.
pub proof fn lemma_item_local(t: Seq<TokenView>, cut: int, at: usize, end: usize)
    requires
        end <= cut <= t.len(),
    ensures
        FnArgRet::item_at(t, at, end) == FnArgRet::item_at(t.take(cut), at, end),
{
    lemma_grammar_end_local(t, cut, at as int, end as int, Grammar::Pattern);
    lemma_grammar_end_local(t, cut, at as int, end as int, Grammar::Type);
    lemma_refused_local(t, cut, at, end);
    let pat_end = index(grammar_end(t, at as int, end as int, Grammar::Pattern));
    if colon_after(t, pat_end, end) {
        lemma_grammar_end_local(t, cut, pat_end->0 + 1, end as int, Grammar::Type);
    }
    assert(colon_after(t, pat_end, end) == colon_after(t.take(cut), pat_end, end));
}

/// A capture list that is read from the tokens before `close` does not
/// depend on the tokens from `close` on.
pub proof fn lemma_capture_list_local(t: Seq<TokenView>, cut: int, at: usize, close: usize)
    requires
        close <= cut <= t.len(),
    ensures
        capture_list(t, at, close) == capture_list(t.take(cut), at, close),
    decreases close - at,
{
    if at < close {
        lemma_item_local(t, cut, at, close);
        match FnArgRet::item_at(t, at, close) {
            Ok((item, next)) => {
                if at < next < close && t[next as int].is_punct(","@) {
                    lemma_capture_list_local(t, cut, (next + 1) as usize, close);
                }
            },
            Err(_) => {},
        }
    }
}

/// A return clause that is read from the tokens before `end` does not depend
/// on the tokens from `end` on.
pub proof fn lemma_return_local(t: Seq<TokenView>, cut: int, at: usize, end: usize)
    requires
        end <= cut <= t.len(),
    ensures
        ReturnType::return_at(t, at, end) == ReturnType::return_at(t.take(cut), at, end),
{
    let short = t.take(cut);
    assert(arrow_at(t, at, end) == arrow_at(short, at, end));
    if arrow_at(t, at, end) {
        let open = (at + 2) as usize;
        lemma_grammar_end_local(t, cut, open as int, end as int, Grammar::Type);
        lemma_refused_local(t, cut, open, end);
        assert(plain_type_at(t, at, end) == plain_type_at(short, at, end));
        if open < end && t[open as int].kind == TokenKind::Open(Delimiter::Parenthesis) {
            lemma_tree_end_local(t, cut, open as int, end as int);
            lemma_close_from_bounds(t, open + 1, end as int, seq![Delimiter::Parenthesis]);
            match index(matching_close(t, open as int, end as int)) {
                Some(close) => {
                    lemma_capture_list_local(t, cut, (open + 1) as usize, close);
                },
                None => {},
            }
            assert(Named::named_at(t, open, end) == Named::named_at(short, open, end));
        }
    }
}

/// A list of parameters that is read from the tokens before `close` does not
/// depend on the tokens from `close` on.
pub proof fn lemma_parameter_list_local(t: Seq<TokenView>, cut: int, at: usize, close: usize)
    requires
        close <= cut <= t.len(),
    ensures
        parameter_list(t, at, close) == parameter_list(t.take(cut), at, close),
    decreases close - at,
{
    if at < close {
        lemma_grammar_end_local(t, cut, at as int, close as int, Grammar::FnArg);
        lemma_refused_local(t, cut, at, close);
        match index(grammar_end(t, at as int, close as int, Grammar::FnArg)) {
            Some(next) => {
                if at < next < close && t[next as int].is_punct(","@) {
                    lemma_parameter_list_local(t, cut, (next + 1) as usize, close);
                }
            },
            None => {},
        }
    }
}

/// Parameters that are read from the tokens before `end` do not depend on
/// the tokens from `end` on.
pub proof fn lemma_parameters_local(t: Seq<TokenView>, cut: int, at: usize, end: usize)
    requires
        end <= cut <= t.len(),
    ensures
        parameters_at(t, at, end) == parameters_at(t.take(cut), at, end),
{
    let short = t.take(cut);
    if at < end && t[at as int].kind == TokenKind::Open(Delimiter::Parenthesis) {
        lemma_tree_end_local(t, cut, at as int, end as int);
        lemma_close_from_bounds(t, at + 1, end as int, seq![Delimiter::Parenthesis]);
        match index(matching_close(t, at as int, end as int)) {
            Some(close) => {
                lemma_parameter_list_local(t, cut, (at + 1) as usize, close);
                match parameter_list(t, (at + 1) as usize, close) {
                    Ok(inputs) => {
                        assert(dots_before(t, close as int) == dots_before(short, close as int));
                        assert(is_variadic(t, inputs, close) == is_variadic(short, inputs, close));
                    },
                    Err(_) => {},
                }
            },
            None => {},
        }
    }
}

/// The outer attributes that fill the tokens before `end` do not depend on
/// the tokens from `end` on.
pub proof fn lemma_outer_attributes_local(t: Seq<TokenView>, cut: int, at: usize, end: usize)
    requires
        end <= cut <= t.len(),
    ensures
        outer_attributes(t, at, end) == outer_attributes(t.take(cut), at, end),
    decreases end - at,
{
    if at < end {
        lemma_after_trees_local(t, cut, at as int, end as int, 2);
        match index(after_trees(t, at as int, end as int, 2)) {
            Some(next) => {
                if at < next <= end {
                    lemma_outer_attributes_local(t, cut, next, end);
                }
            },
            None => {},
        }
    }
}

/// A part that is read from the tokens before `end` does not depend on the
/// tokens from `end` on.
pub proof fn lemma_staged_local(
    t: Seq<TokenView>,
    cut: int,
    at: usize,
    end: usize,
    grammar: Grammar,
    kind: ErrorKind,
    stage: Stage,
)
    requires
        end <= cut <= t.len(),
    ensures
        staged(t, at, end, grammar, kind, stage) == staged(
            t.take(cut),
            at,
            end,
            grammar,
            kind,
            stage,
        ),
{
    lemma_grammar_end_local(t, cut, at as int, end as int, grammar);
    lemma_refused_local(t, cut, at, end);
}

/// The position up to which a text that ends by the cut is first not plain
/// does not depend on the tokens after the cut.
pub proof fn lemma_first_not_plain_local(
    t: Seq<TokenView>,
    cut: int,
    start: int,
    end: int,
    to: int,
)
    requires
        0 <= start <= to <= end <= cut <= t.len(),
    ensures
        first_not_plain(t, start, end, to) == first_not_plain(t.take(cut), start, end, to),
    decreases end - to,
{
    if to < end {
        assert(t.subrange(start, to) =~= t.take(cut).subrange(start, to));
        lemma_first_not_plain_local(t, cut, start, end, to + 1);
    }
}

/// Whether a text that ends by the cut is refused, and where, does not
/// depend on the tokens after the cut.
pub proof fn lemma_refused_local(t: Seq<TokenView>, cut: int, start: usize, end: usize)
    requires
        end <= cut <= t.len(),
    ensures
        refused_at(t, start, end) == refused_at(t.take(cut), start, end),
{
    if start < end {
        assert(t.subrange(start as int, end as int) =~= t.take(cut).subrange(
            start as int,
            end as int,
        ));
        lemma_first_not_plain_local(t, cut, start as int, end as int, start + 1);
    }
}

/// Whether what stands at `cut`, if anything, is an opening bracket.
pub open spec fn cut_at_group(t: Seq<TokenView>, cut: int) -> bool {
    0 <= cut <= t.len() && (cut < t.len() ==> t[cut].kind is Open)
}

/// A keyword that is looked for at or before the cut does not depend on the
/// tokens after the cut.
pub proof fn lemma_keyword_local(t: Seq<TokenView>, cut: int, at: usize, word: Seq<char>)
    requires
        cut_at_group(t, cut),
        at <= cut,
    ensures
        keyword_at(t, at, word) == keyword_at(t.take(cut), at, word),
        keyword_at(t, at, word) is Some ==> at < cut,
{
}

/// What stands between the attributes and the parameters of a signature
/// that ends at the cut does not depend on the tokens after the cut.
pub proof fn lemma_head_local(t: Seq<TokenView>, at: usize, end: usize)
    requires
        t.len() <= usize::MAX,
        cut_at_group(t, end as int),
    ensures
        head_at(t, at, end) == head_at(t.take(end as int), at, end),
{
    let cut = end as int;
    let short = t.take(cut);
    lemma_staged_local(
        t,
        cut,
        at,
        end,
        Grammar::Visibility,
        ErrorKind::LexicalMismatch,
        Stage::Visibility,
    );
    lemma_staged_bounds(
        t,
        at,
        end,
        Grammar::Visibility,
        ErrorKind::LexicalMismatch,
        Stage::Visibility,
    );
    match staged(t, at, end, Grammar::Visibility, ErrorKind::LexicalMismatch, Stage::Visibility) {
        Ok(vis_end) => {
            lemma_keyword_local(t, cut, vis_end, "const"@);
            let after_const = past(keyword_at(t, vis_end, "const"@), vis_end);
            lemma_keyword_local(t, cut, after_const, "unsafe"@);
            let after_unsafe = past(keyword_at(t, after_const, "unsafe"@), after_const);
            lemma_keyword_local(t, cut, after_unsafe, "async"@);
            let after_async = past(keyword_at(t, after_unsafe, "async"@), after_unsafe);
            lemma_staged_local(
                t,
                cut,
                after_async,
                end,
                Grammar::Abi,
                ErrorKind::LexicalMismatch,
                Stage::Abi,
            );
            lemma_staged_bounds(
                t,
                after_async,
                end,
                Grammar::Abi,
                ErrorKind::LexicalMismatch,
                Stage::Abi,
            );
            match staged(
                t,
                after_async,
                end,
                Grammar::Abi,
                ErrorKind::LexicalMismatch,
                Stage::Abi,
            ) {
                Ok(abi_end) => {
                    lemma_keyword_local(t, cut, abi_end, "fn"@);
                    if keyword_at(t, abi_end, "fn"@) is Some {
                        assert(ident_at(t, abi_end + 1) == ident_at(short, abi_end + 1));
                        lemma_staged_local(
                            t,
                            cut,
                            (abi_end + 2) as usize,
                            end,
                            Grammar::Generics,
                            ErrorKind::GenericsOrWhereClauseMalformed,
                            Stage::Generics,
                        );
                    }
                },
                Err(_) => {},
            }
        },
        Err(_) => {},
    }
}

/// The signature that ends at the cut does not depend on the tokens after
/// the cut.
pub proof fn lemma_signature_local(t: Seq<TokenView>, end: usize)
    requires
        t.len() <= usize::MAX,
        cut_at_group(t, end as int),
    ensures
        signature_at(t, end) == signature_at(t.take(end as int), end),
{
    let cut = end as int;
    let short = t.take(cut);
    lemma_staged_local(
        t,
        cut,
        0,
        end,
        Grammar::OuterAttributes,
        ErrorKind::LexicalMismatch,
        Stage::Attributes,
    );
    lemma_staged_bounds(
        t,
        0,
        end,
        Grammar::OuterAttributes,
        ErrorKind::LexicalMismatch,
        Stage::Attributes,
    );
    match staged(
        t,
        0,
        end,
        Grammar::OuterAttributes,
        ErrorKind::LexicalMismatch,
        Stage::Attributes,
    ) {
        Ok(attrs_end) => {
            lemma_outer_attributes_local(t, cut, 0, attrs_end);
            lemma_head_local(t, attrs_end, end);
            match head_at(t, attrs_end, end) {
                Ok(head) => {
                    lemma_parameters_local(t, cut, head.generics.end, end);
                    match parameters_at(t, head.generics.end, end) {
                        Ok(parameters) => {
                            lemma_return_local(t, cut, parameters.paren_token.end, end);
                            match ReturnType::return_at(t, parameters.paren_token.end, end) {
                                Ok((_, output_end)) => {
                                    lemma_staged_local(
                                        t,
                                        cut,
                                        output_end,
                                        end,
                                        Grammar::WhereClause,
                                        ErrorKind::GenericsOrWhereClauseMalformed,
                                        Stage::WhereClause,
                                    );
                                },
                                Err(_) => {},
                            }
                        },
                        Err(_) => {},
                    }
                },
                Err(_) => {},
            }
        },
        Err(_) => {},
    }
}

/// Two sequences of tokens that start with the same tokens have the same
/// tokens in every range of those.
pub proof fn lemma_same_range(a: Seq<TokenView>, b: Seq<TokenView>, cut: int, from: int, to: int)
    requires
        0 <= from <= to <= cut,
        cut <= a.len(),
        cut <= b.len(),
        a.take(cut) == b.take(cut),
    ensures
        a.subrange(from, to) == b.subrange(from, to),
{
    assert(a.subrange(from, to) =~= a.take(cut).subrange(from, to));
    assert(b.subrange(from, to) =~= b.take(cut).subrange(from, to));
}

/// The elements of a tuple are written from the tokens before its closing
/// parenthesis.
pub proof fn lemma_tuple_elems_same(
    a: Seq<TokenView>,
    b: Seq<TokenView>,
    cut: int,
    elems: Seq<Span>,
    k: int,
    close: int,
)
    requires
        close < cut,
        cut <= a.len(),
        cut <= b.len(),
        a.take(cut) == b.take(cut),
        forall|j: int| 0 <= j < elems.len() ==> (#[trigger] elems[j]).start <= elems[j].end <= close,
    ensures
        tuple_elems(a, elems, k, close) == tuple_elems(b, elems, k, close),
    decreases elems.len() - k,
{
    if 0 <= k < elems.len() {
        if k == elems.len() - 1 {
            lemma_same_range(a, b, cut, elems[k].start as int, close);
        } else {
            lemma_same_range(a, b, cut, elems[k].start as int, elems[k].end + 1);
            lemma_tuple_elems_same(a, b, cut, elems, k + 1, close);
        }
    }
}

/// The return clause of the ordinary item is written from the tokens that
/// its return type names.
pub proof fn lemma_return_tokens_same(
    a: Seq<TokenView>,
    b: Seq<TokenView>,
    cut: int,
    simple: SimpleReturnView,
)
    requires
        cut <= a.len(),
        cut <= b.len(),
        a.take(cut) == b.take(cut),
        simple.within(cut),
    ensures
        return_tokens(a, simple) == return_tokens(b, simple),
{
    match simple {
        SimpleReturnView::Default => {},
        SimpleReturnView::Single { arrow, ty } => {
            lemma_same_range(a, b, cut, arrow as int, arrow + 2);
            lemma_same_range(a, b, cut, ty.start as int, ty.end as int);
        },
        SimpleReturnView::Tuple { arrow, paren_token, elems } => {
            lemma_same_range(a, b, cut, arrow as int, arrow + 2);
            lemma_same_range(a, b, cut, paren_token.start as int, paren_token.start + 1);
            lemma_same_range(a, b, cut, paren_token.end - 1, paren_token.end as int);
            lemma_tuple_elems_same(a, b, cut, elems, 0, paren_token.end - 1);
        },
    }
}

/// The patterns and the types of a declaration are written from the tokens
/// that the captures name.
pub proof fn lemma_declaration_same(
    a: Seq<TokenView>,
    b: Seq<TokenView>,
    cut: int,
    bound: Seq<ArgCaptured>,
    k: int,
)
    requires
        cut <= a.len(),
        cut <= b.len(),
        a.take(cut) == b.take(cut),
        captures_within(bound, cut),
    ensures
        patterns(a, bound, k) == patterns(b, bound, k),
        types(a, bound, k) == types(b, bound, k),
    decreases bound.len() - k,
{
    if 0 <= k < bound.len() {
        lemma_same_range(a, b, cut, bound[k].pat.start as int, bound[k].pat.end as int);
        lemma_same_range(a, b, cut, bound[k].ty.start as int, bound[k].ty.end as int);
        if k < bound.len() - 1 {
            lemma_declaration_same(a, b, cut, bound, k + 1);
        }
    }
}

/// The declaration of the captures is written from the tokens that the
/// captures name.
pub proof fn lemma_prefix_tokens_same(
    a: Seq<TokenView>,
    b: Seq<TokenView>,
    cut: int,
    captures: Option<Seq<ArgCaptured>>,
)
    requires
        cut <= a.len(),
        cut <= b.len(),
        a.take(cut) == b.take(cut),
        captures matches Some(bound) ==> captures_within(bound, cut),
    ensures
        prefix_tokens(a, captures) == prefix_tokens(b, captures),
{
    match captures {
        Some(bound) => {
            if bound.len() == 1 {
                lemma_same_range(a, b, cut, bound[0].pat.start as int, bound[0].pat.end as int);
                lemma_same_range(a, b, cut, bound[0].ty.start as int, bound[0].ty.end as int);
            } else if bound.len() > 1 {
                lemma_declaration_same(a, b, cut, bound, 0);
            }
        },
        None => {},
    }
}

/// The body of a function item whose brackets nest is found where the
/// signature ends, or a failure is reported that does not depend on the body.
pub proof fn lemma_body_found(t: Seq<TokenView>, at: usize)
    requires
        t.len() <= usize::MAX,
        first_unbalanced(t, 0, t.len() as int) is None,
        signature_end(t) < t.len(),
        balanced(t, at as int, signature_end(t) as int),
    ensures
        at == signature_end(t) ==> body_at(t, at) == Ok::<Span, ParseError>(
            Span { start: at, end: t.len() as usize },
        ),
        at < signature_end(t) ==> body_at(t, at) == Err::<Span, ParseError>(
            ParseError {
                kind: ErrorKind::LexicalMismatch,
                stage: Stage::Body,
                position: if t[at as int].kind == TokenKind::Open(Delimiter::Brace) {
                    (index(matching_close(t, at as int, signature_end(t) as int))->0 + 1) as usize
                } else {
                    at
                },
            },
        ),
{
    let end = signature_end(t);
    let len = t.len() as int;
    lemma_signature_balanced(t);
    if at < end && t[at as int].kind == TokenKind::Open(Delimiter::Brace) {
        lemma_balanced_after_group(t, at as int, end as int);
        lemma_close_from_any_end(t, at + 1, end as int, len, seq![Delimiter::Brace]);
    }
}

/// Two function items whose brackets nest and that are the same up to the
/// opening brace of their bodies have the same signature.
pub proof fn lemma_same_signature(a: Seq<TokenView>, b: Seq<TokenView>)
    requires
        a.len() <= usize::MAX,
        b.len() <= usize::MAX,
        first_unbalanced(a, 0, a.len() as int) is None,
        first_unbalanced(b, 0, b.len() as int) is None,
        signature_end(a) < a.len(),
        signature_end(b) == signature_end(a),
        signature_end(b) < b.len(),
        a.take(signature_end(a) as int) == b.take(signature_end(a) as int),
    ensures
        signature_at(a, signature_end(a)) == signature_at(b, signature_end(a)),
{
    let end = signature_end(a);
    lemma_signature_balanced(a);
    lemma_signature_balanced(b);
    lemma_signature_local(a, end);
    lemma_signature_local(b, end);
}

/// Two function items whose brackets nest and that are the same up to the
/// opening brace of their bodies have their bodies at the same place, or fail
/// to have one in the same way.
pub proof fn lemma_same_body(a: Seq<TokenView>, b: Seq<TokenView>, at: usize)
    requires
        a.len() <= usize::MAX,
        b.len() <= usize::MAX,
        first_unbalanced(a, 0, a.len() as int) is None,
        first_unbalanced(b, 0, b.len() as int) is None,
        signature_end(a) < a.len(),
        signature_end(b) == signature_end(a),
        signature_end(b) < b.len(),
        a.take(signature_end(a) as int) == b.take(signature_end(a) as int),
        balanced(a, at as int, signature_end(a) as int),
        balanced(b, at as int, signature_end(a) as int),
    ensures
        match body_at(a, at) {
            Ok(block) => block == (Span { start: at, end: a.len() as usize }) && body_at(b, at)
                == Ok::<Span, ParseError>(Span { start: at, end: b.len() as usize }),
            Err(e) => body_at(b, at) == Err::<Span, ParseError>(e),
        },
{
    let end = signature_end(a);
    let cut = end as int;
    lemma_body_found(a, at);
    lemma_body_found(b, at);
    if at < end {
        assert(a[at as int] == a.take(cut)[at as int]);
        assert(b[at as int] == b.take(cut)[at as int]);
        lemma_tree_end_local(a, cut, at as int, cut);
        lemma_tree_end_local(b, cut, at as int, cut);
    }
}

/// Two well-formed function items that are the same up to and with the
/// opening brace of their bodies, and have the same parts but for where the
/// body ends, are rewritten alike: the ordinary items are the same up to and
/// with the declaration, and each goes on with the rest of its own body.
pub proof fn lemma_same_emitted(
    a: Seq<TokenView>,
    b: Seq<TokenView>,
    item: ItemFnView,
    other: ItemFnView,
)
    requires
        item.well_formed(a.len() as int),
        item.block.start < b.len(),
        other == (ItemFnView {
            block: Span { start: item.block.start, end: b.len() as usize },
            ..item
        }),
        a.take(item.block.start + 1) == b.take(item.block.start + 1),
    ensures
        ({
            let out = emitted(a, item);
            let kept = out.len() - (a.len() - item.block.start - 1);
            &&& 0 <= kept <= out.len()
            &&& out.skip(kept) == a.skip(item.block.start + 1)
            &&& emitted(b, other) == out.take(kept) + b.skip(item.block.start + 1)
        }),
{
    let cut = item.block.start as int;
    lemma_cuts_in_order(a, item);
    lemma_clause_within(item.decl.output, cuts(item).0, cuts(item).1, cut + 1);
    lemma_return_tokens_same(a, b, cut + 1, item.decl.output.simple());
    lemma_prefix_tokens_same(a, b, cut + 1, item.decl.output.captures());
    lemma_same_range(a, b, cut + 1, 0, cuts(item).0);
    lemma_same_range(a, b, cut + 1, cuts(item).1, cut + 1);
    let out = emitted(a, item);
    let kept = out.len() - (a.len() - cut - 1);
    assert(out.skip(kept) =~= a.skip(cut + 1));
    assert(emitted(b, other) =~= out.take(kept) + b.skip(cut + 1));
}

/// The body of a function item is not read.
///
/// Take two function items whose brackets nest and that are the same up to
/// and with the opening brace of their bodies.  Then both are read alike:
/// both fail in the same way, or both are function items with the same parts,
/// but for where the body ends.  And both are rewritten alike: the ordinary
/// items are the same up to and with the declaration, and each goes on with
/// the rest of its own body.
pub proof fn body_is_not_read(a: Seq<TokenView>, b: Seq<TokenView>)
    requires
        a.len() <= usize::MAX,
        b.len() <= usize::MAX,
        first_unbalanced(a, 0, a.len() as int) is None,
        first_unbalanced(b, 0, b.len() as int) is None,
        signature_end(a) < a.len(),
        signature_end(b) == signature_end(a),
        signature_end(b) < b.len(),
        a.take(signature_end(a) + 1) == b.take(signature_end(a) + 1),
    ensures
        match item_at(a) {
            Ok(item) => item_at(b) == Ok::<ItemFnView, ParseError>(
                ItemFnView {
                    block: Span { start: item.block.start, end: b.len() as usize },
                    ..item
                },
            ),
            Err(e) => item_at(b) == Err::<ItemFnView, ParseError>(e),
        },
        match rewritten(a) {
            Ok(out) => {
                let kept = out.len() - (a.len() - signature_end(a) - 1);
                &&& 0 <= kept <= out.len()
                &&& out.skip(kept) == a.skip(signature_end(a) + 1)
                &&& rewritten(b) == Ok::<Seq<TokenView>, ParseError>(
                    out.take(kept) + b.skip(signature_end(a) + 1),
                )
            },
            Err(e) => rewritten(b) == Err::<Seq<TokenView>, ParseError>(e),
        },
{
    let end = signature_end(a);
    let cut = end as int;
    assert(a.take(cut) =~= a.take(cut + 1).take(cut));
    assert(b.take(cut) =~= b.take(cut + 1).take(cut));
    lemma_same_signature(a, b);
    lemma_signature_balanced(a);
    lemma_signature_balanced(b);
    lemma_signature_keeps_balance(a, end);
    lemma_signature_keeps_balance(b, end);
    match signature_at(a, end) {
        Ok(signature) => {
            let at = signature.where_clause.end;
            lemma_same_body(a, b, at);
            match body_at(a, at) {
                Ok(block) => {
                    let item = item_of(signature, block);
                    let other = item_of(signature, Span { start: at, end: b.len() as usize });
                    lemma_item_at_well_formed(a);
                    assert(item_at(a) == Ok::<ItemFnView, ParseError>(item));
                    assert(item_at(b) == Ok::<ItemFnView, ParseError>(other));
                    assert(at == end) by {
                        lemma_body_found(a, at);
                    }
                    lemma_same_emitted(a, b, item, other);
                },
                Err(_) => {},
            }
        },
        Err(_) => {},
    }
}

/// The return type and the captures of a well-formed return clause name
/// positions before the end of the clause.
pub proof fn lemma_clause_within(clause: ReturnTypeView, from: int, to: int, len: int)
    requires
        clause.well_formed(from, to, to),
        0 <= from,
        to <= len,
    ensures
        clause.simple().within(len),
        clause.captures() matches Some(bound) ==> captures_within(bound, len),
{
    lemma_well_formed_within(clause, from, to, to);
}

} // verus!
