//! What the nesting of its brackets means for reading a function item.
//!
//! An item is read only if its brackets nest.  Then every part of it that is
//! read starts and ends between whole token trees, every group that the
//! grammar looks for is closed, and no later failure is one for want of a
//! closing bracket.

use crate::error::{ErrorKind, ParseError, Stage};
use crate::fn_arg_ret::FnArgRet;
use crate::fn_decl::{parameter_list, parameters_at};
use crate::item_fn::{
    attributes_at, body_at, head_at, item_at, keyword_at, past, signature_at, signature_end,
    staged, ItemFnView,
};
use crate::named::capture_list;
use crate::return_type::{arrow_at, ReturnType};
use crate::syntax::{
    grammar_end, ident_at, lemma_grammar_end_balanced, lemma_grammar_end_bounds, Grammar,
};
use crate::token::{
    first_unbalanced, index, last_tree, lemma_balanced_step, lemma_close_from_any_end,
    lemma_close_from_bounds, lemma_tree_end_any_end, matching_close, tree_end, Delimiter,
    TokenKind, TokenView,
};
use vstd::prelude::*;

verus! {

/// Whether the tokens from `at` up to `end` are whole token trees, and what
/// stands at `end`, if anything, is an opening bracket.
pub open spec fn balanced(t: Seq<TokenView>, at: int, end: int) -> bool {
    &&& first_unbalanced(t, at, end) is None
    &&& 0 <= at <= end <= t.len()
    &&& end < t.len() ==> t[end].kind is Open
}

/// Where the tokens from `at` up to `end` are whole token trees and there are
/// some, the last of them starts before `end` and ends at `end`, and the
/// tokens before it are whole token trees.
pub proof fn lemma_last_tree(t: Seq<TokenView>, at: int, end: int)
    requires
        first_unbalanced(t, at, end) is None,
        0 <= at < end <= t.len(),
    ensures
        at <= last_tree(t, at, end) < end,
        tree_end(t, last_tree(t, at, end), end) == Some(end),
        first_unbalanced(t, at, last_tree(t, at, end)) is None,
    decreases end - at,
{
    lemma_balanced_step(t, at, end);
    let next = tree_end(t, at, end)->0;
    if next < end {
        lemma_last_tree(t, next, end);
        let last = last_tree(t, next, end);
        lemma_tree_end_any_end(t, at, last, end);
    }
}

/// Where the brackets of an item nest, the tokens of its signature are whole
/// token trees, and its body, if it has one, is one whole token tree.
pub proof fn lemma_signature_balanced(t: Seq<TokenView>)
    requires
        t.len() <= usize::MAX,
        first_unbalanced(t, 0, t.len() as int) is None,
    ensures
        balanced(t, 0, signature_end(t) as int),
        signature_end(t) < t.len() ==> t[signature_end(t) as int].kind == TokenKind::Open(
            Delimiter::Brace,
        ) && tree_end(t, signature_end(t) as int, t.len() as int) == Some(t.len() as int),
{
    if t.len() > 0 {
        lemma_last_tree(t, 0, t.len() as int);
    }
}

/// Where the tokens from `at` are whole token trees and a word, a
/// punctuation character or a literal stands at `at`, the tokens after it are
/// whole token trees.
pub proof fn lemma_balanced_after_token(t: Seq<TokenView>, at: int, end: int)
    requires
        balanced(t, at, end),
        0 <= at < t.len(),
        t[at].kind == TokenKind::Ident || t[at].kind == TokenKind::Punct || t[at].kind
            == TokenKind::Literal,
    ensures
        at < end,
        balanced(t, at + 1, end),
{
    if at < end {
        lemma_balanced_step(t, at, end);
    }
}

/// Where the tokens from `at` are whole token trees and a group opens at
/// `at`, before `end`, the group is closed, and the tokens after it are whole
/// token trees.
pub proof fn lemma_balanced_after_group(t: Seq<TokenView>, at: int, end: int)
    requires
        balanced(t, at, end),
        0 <= at < end,
        t[at].kind is Open,
    ensures
        matching_close(t, at, end) matches Some(close) && at < close < end && balanced(
            t,
            close + 1,
            end,
        ),
{
    lemma_balanced_step(t, at, end);
    match t[at].kind {
        TokenKind::Open(d) => lemma_close_from_bounds(t, at + 1, end, seq![d]),
        _ => {},
    }
}

/// A part that was read from whole token trees leaves whole token trees.
pub proof fn lemma_balanced_after_stage(
    t: Seq<TokenView>,
    at: usize,
    end: usize,
    grammar: Grammar,
    kind: ErrorKind,
    stage: Stage,
)
    requires
        balanced(t, at as int, end as int),
    ensures
        staged(t, at, end, grammar, kind, stage) matches Ok(next) ==> balanced(
            t,
            next as int,
            end as int,
        ) && at <= next <= end,
{
    lemma_grammar_end_balanced(t, at as int, end as int, grammar);
    lemma_grammar_end_bounds(t, at as int, end as int, grammar);
}

/// An optional keyword that was looked for in whole token trees leaves whole
/// token trees.
pub proof fn lemma_balanced_after_keyword(t: Seq<TokenView>, at: usize, end: usize, word: Seq<char>)
    requires
        t.len() <= usize::MAX,
        balanced(t, at as int, end as int),
    ensures
        balanced(t, past(keyword_at(t, at, word), at) as int, end as int),
{
    if keyword_at(t, at, word) is Some {
        lemma_balanced_after_token(t, at as int, end as int);
    }
}

/// No capture list fails for want of a closing bracket.
pub proof fn lemma_capture_list_failures(t: Seq<TokenView>, at: usize, close: usize)
    ensures
        capture_list(t, at, close) matches Err(e) ==> e.kind
            != ErrorKind::BodyDelimiterUnbalanced,
    decreases close - at,
{
    if at < close {
        match FnArgRet::item_at(t, at, close) {
            Ok((item, next)) => {
                if at < next < close && t[next as int].is_punct(","@) {
                    lemma_capture_list_failures(t, (next + 1) as usize, close);
                }
            },
            Err(_) => {},
        }
    }
}

/// No list of parameters fails for want of a closing bracket.
pub proof fn lemma_parameter_list_failures(t: Seq<TokenView>, at: usize, close: usize)
    ensures
        parameter_list(t, at, close) matches Err(e) ==> e.kind
            != ErrorKind::BodyDelimiterUnbalanced,
    decreases close - at,
{
    if at < close {
        match index(grammar_end(t, at as int, close as int, Grammar::FnArg)) {
            Some(next) => {
                if at < next < close && t[next as int].is_punct(","@) {
                    lemma_parameter_list_failures(t, (next + 1) as usize, close);
                }
            },
            None => {},
        }
    }
}

/// What is read between the attributes and the parameters from whole token
/// trees leaves whole token trees, and does not fail for want of a closing
/// bracket.
pub proof fn lemma_head_balanced(t: Seq<TokenView>, at: usize, end: usize)
    requires
        t.len() <= usize::MAX,
        balanced(t, at as int, end as int),
    ensures
        match head_at(t, at, end) {
            Ok(head) => balanced(t, head.generics.end as int, end as int) && head.generics.end
                <= end,
            Err(e) => e.kind != ErrorKind::BodyDelimiterUnbalanced,
        },
{
    lemma_balanced_after_stage(
        t,
        at,
        end,
        Grammar::Visibility,
        ErrorKind::LexicalMismatch,
        Stage::Visibility,
    );
    match staged(t, at, end, Grammar::Visibility, ErrorKind::LexicalMismatch, Stage::Visibility) {
        Ok(vis_end) => {
            let after_const = past(keyword_at(t, vis_end, "const"@), vis_end);
            lemma_balanced_after_keyword(t, vis_end, end, "const"@);
            let after_unsafe = past(keyword_at(t, after_const, "unsafe"@), after_const);
            lemma_balanced_after_keyword(t, after_const, end, "unsafe"@);
            let after_async = past(keyword_at(t, after_unsafe, "async"@), after_unsafe);
            lemma_balanced_after_keyword(t, after_unsafe, end, "async"@);
            lemma_balanced_after_stage(
                t,
                after_async,
                end,
                Grammar::Abi,
                ErrorKind::LexicalMismatch,
                Stage::Abi,
            );
            match staged(
                t,
                after_async,
                end,
                Grammar::Abi,
                ErrorKind::LexicalMismatch,
                Stage::Abi,
            ) {
                Ok(abi_end) => {
                    if keyword_at(t, abi_end, "fn"@) is Some && ident_at(t, abi_end + 1) {
                        lemma_balanced_after_token(t, abi_end as int, end as int);
                        lemma_balanced_after_token(t, abi_end + 1, end as int);
                        lemma_balanced_after_stage(
                            t,
                            (abi_end + 2) as usize,
                            end,
                            Grammar::Generics,
                            ErrorKind::GenericsOrWhereClauseMalformed,
                            Stage::Generics,
                        );
                    }
                },
                Err(_) => {},
            }
        },
        Err(_) => {},
    }
}

/// Parameters that are read from whole token trees leave whole token trees,
/// and do not fail for want of a closing bracket.
pub proof fn lemma_parameters_balanced(t: Seq<TokenView>, at: usize, end: usize)
    requires
        t.len() <= usize::MAX,
        balanced(t, at as int, end as int),
    ensures
        match parameters_at(t, at, end) {
            Ok(parameters) => balanced(t, parameters.paren_token.end as int, end as int)
                && parameters.paren_token.end <= end,
            Err(e) => e.kind != ErrorKind::BodyDelimiterUnbalanced,
        },
{
    if at < end && t[at as int].kind == TokenKind::Open(Delimiter::Parenthesis) {
        lemma_balanced_after_group(t, at as int, end as int);
        let close = index(matching_close(t, at as int, end as int))->0;
        lemma_parameter_list_failures(t, (at + 1) as usize, close);
    }
}

/// A return clause that is read from whole token trees leaves whole token
/// trees, and does not fail for want of a closing bracket.
pub proof fn lemma_return_balanced(t: Seq<TokenView>, at: usize, end: usize)
    requires
        t.len() <= usize::MAX,
        balanced(t, at as int, end as int),
        at <= end,
    ensures
        match ReturnType::return_at(t, at, end) {
            Ok((_, next)) => balanced(t, next as int, end as int) && next <= end,
            Err(e) => e.kind != ErrorKind::BodyDelimiterUnbalanced,
        },
{
    if arrow_at(t, at, end) {
        lemma_balanced_after_token(t, at as int, end as int);
        lemma_balanced_after_token(t, at + 1, end as int);
        let after = (at + 2) as usize;
        lemma_grammar_end_balanced(t, after as int, end as int, Grammar::Type);
        lemma_grammar_end_bounds(t, after as int, end as int, Grammar::Type);
        if after < end && t[after as int].kind == TokenKind::Open(Delimiter::Parenthesis) {
            lemma_balanced_after_group(t, after as int, end as int);
            let close = index(matching_close(t, after as int, end as int))->0;
            lemma_capture_list_failures(t, (after + 1) as usize, close);
        }
    }
}

/// A body that is looked for among whole token trees does not fail for want
/// of a closing bracket.
pub proof fn lemma_body_balanced(t: Seq<TokenView>, at: usize)
    requires
        t.len() <= usize::MAX,
        first_unbalanced(t, 0, t.len() as int) is None,
        balanced(t, at as int, signature_end(t) as int),
        at <= signature_end(t),
    ensures
        body_at(t, at) matches Err(e) ==> e.kind != ErrorKind::BodyDelimiterUnbalanced,
{
    let end = signature_end(t);
    let len = t.len() as int;
    lemma_signature_balanced(t);
    if at < t.len() && t[at as int].kind == TokenKind::Open(Delimiter::Brace) {
        if at < end {
            lemma_balanced_after_group(t, at as int, end as int);
            lemma_close_from_any_end(t, at + 1, end as int, len, seq![Delimiter::Brace]);
        }
    }
}

/// A signature that is read from whole token trees leaves whole token trees,
/// and does not fail for want of a closing bracket.
pub proof fn lemma_signature_keeps_balance(t: Seq<TokenView>, end: usize)
    requires
        t.len() <= usize::MAX,
        balanced(t, 0, end as int),
    ensures
        match signature_at(t, end) {
            Ok(signature) => balanced(t, signature.where_clause.end as int, end as int),
            Err(e) => e.kind != ErrorKind::BodyDelimiterUnbalanced,
        },
{
    lemma_balanced_after_stage(
        t,
        0,
        end,
        Grammar::OuterAttributes,
        ErrorKind::LexicalMismatch,
        Stage::Attributes,
    );
    match attributes_at(t, end) {
        Ok((_, attrs_end)) => {
            lemma_head_balanced(t, attrs_end, end);
            match head_at(t, attrs_end, end) {
                Ok(head) => {
                    let at = head.generics.end;
                    lemma_parameters_balanced(t, at, end);
                    match parameters_at(t, at, end) {
                        Ok(parameters) => {
                            let clause_start = parameters.paren_token.end;
                            lemma_return_balanced(t, clause_start, end);
                            match ReturnType::return_at(t, clause_start, end) {
                                Ok((_, output_end)) => {
                                    lemma_balanced_after_stage(
                                        t,
                                        output_end,
                                        end,
                                        Grammar::WhereClause,
                                        ErrorKind::GenericsOrWhereClauseMalformed,
                                        Stage::WhereClause,
                                    );
                                },
                                Err(_) => {},
                            }
                        },
                        Err(_) => {},
                    }
                },
                Err(_) => {},
            }
        },
        Err(_) => {},
    }
}

/// A function item fails for want of a closing bracket if and only if its
/// brackets do not nest, and the failure is then reported for the nesting,
/// at the first token that starts no whole token tree.
pub proof fn unbalanced_is_found_first(t: Seq<TokenView>)
    requires
        t.len() <= usize::MAX,
    ensures
        (item_at(t) matches Err(e) && e.kind == ErrorKind::BodyDelimiterUnbalanced)
            <==> first_unbalanced(t, 0, t.len() as int) is Some,
        first_unbalanced(t, 0, t.len() as int) matches Some(bad) ==> item_at(t) == Err::<
            ItemFnView,
            ParseError,
        >(
            ParseError {
                kind: ErrorKind::BodyDelimiterUnbalanced,
                stage: Stage::Nesting,
                position: bad as usize,
            },
        ),
{
    let end = signature_end(t);
    if first_unbalanced(t, 0, t.len() as int) is None {
        lemma_signature_balanced(t);
        lemma_signature_keeps_balance(t, end);
        match signature_at(t, end) {
            Ok(signature) => {
                lemma_body_balanced(t, signature.where_clause.end);
            },
            Err(_) => {},
        }
    }
}

} // verus!
