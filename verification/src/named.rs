//! A capture list: the parenthesised items of a return clause.

use crate::error::{ErrorKind, ParseError, Stage};
use crate::fn_arg_ret::{lemma_item_at_spans, FnArgRet};
use crate::token::{
    find_close, index, lemma_close_from_bounds, matching_close, Delimiter, Span, Token, TokenKind,
    TokenView,
};
use vstd::prelude::*;

verus! {

/// A capture list: the parentheses, and the items between them in order.
#[derive(Debug, PartialEq, Eq)]
pub struct Named {
    /// From the opening parenthesis to after the closing one.
    pub paren_token: Span,
    pub outputs: Vec<FnArgRet>,
}

/// The mathematical value of a [`Named`].
pub struct NamedView {
    pub paren_token: Span,
    pub outputs: Seq<FnArgRet>,
}

impl View for Named {
    type V = NamedView;

    open spec fn view(&self) -> NamedView {
        NamedView { paren_token: self.paren_token, outputs: self.outputs@ }
    }
}

/// Where an item starts: at its pattern if it has one, else at its type.
pub open spec fn item_start(item: FnArgRet) -> int {
    match item {
        FnArgRet::Captured(captured) => captured.pat.start as int,
        FnArgRet::Ignored(ty) => ty.start as int,
    }
}

/// Whether the item at `k` is put together in order and starts where it
/// should: the first item at `from`, any other one token (the comma) after
/// the end of the item before it.
pub open spec fn linked(items: Seq<FnArgRet>, from: int, k: int) -> bool {
    let start = if k == 0 {
        from
    } else {
        items[k - 1].ty().end + 1
    };
    items[k].spans(start, items[k].ty().end as int)
}

/// Whether the items fill the tokens from `from` up to `close`: the first
/// starts at `from`, one token (the comma) lies between an item and the
/// next, and the last ends at `close` or one token (a trailing comma) before
/// it.  No items fill an empty range only.
pub open spec fn items_fill(items: Seq<FnArgRet>, from: int, close: int) -> bool {
    &&& from <= close
    &&& forall|k: int| 0 <= k < items.len() ==> #[trigger] linked(items, from, k)
    &&& if items.len() == 0 {
        from == close
    } else {
        items.last().ty().end == close || items.last().ty().end + 1 == close
    }
}

/// In a list that fills its range, the `k`th item starts at or after `from`.
pub proof fn lemma_item_starts(items: Seq<FnArgRet>, from: int, close: int, k: int)
    requires
        items_fill(items, from, close),
        0 <= k < items.len(),
    ensures
        from <= item_start(items[k]) <= items[k].ty().start < items[k].ty().end,
    decreases k,
{
    assert(linked(items, from, k));
    if k > 0 {
        lemma_item_starts(items, from, close, k - 1);
    }
}

/// In a list that fills its range, the `k`th item ends at or before `close`,
/// and any but the last ends before it.
pub proof fn lemma_item_ends(items: Seq<FnArgRet>, from: int, close: int, k: int)
    requires
        items_fill(items, from, close),
        0 <= k < items.len(),
    ensures
        items[k].ty().end <= close,
        k + 1 < items.len() ==> items[k].ty().end < close,
    decreases items.len() - k,
{
    if k + 1 < items.len() {
        lemma_item_ends(items, from, close, k + 1);
        assert(linked(items, from, k + 1));
    }
}

/// A list of items before what follows it, where that could be read.
pub open spec fn followed_by(
    items: Seq<FnArgRet>,
    rest: Result<Seq<FnArgRet>, ParseError>,
) -> Result<Seq<FnArgRet>, ParseError> {
    match rest {
        Ok(more) => Ok(items + more),
        Err(e) => Err(e),
    }
}

/// The failure for a token at `at` that stands where a comma should.
pub open spec fn comma_missing(at: usize) -> ParseError {
    ParseError { kind: ErrorKind::LexicalMismatch, stage: Stage::CaptureList, position: at }
}

/// The capture items from `at` up to `close`: items separated by commas, with
/// or without a comma after the last.
pub open spec fn capture_list(t: Seq<TokenView>, at: usize, close: usize) -> Result<
    Seq<FnArgRet>,
    ParseError,
>
    decreases close - at,
{
    if at >= close {
        Ok(Seq::empty())
    } else {
        match FnArgRet::item_at(t, at, close) {
            Err(e) => Err(e),
            Ok((item, next)) => {
                if !(at < next <= close) {
                    Err(FnArgRet::malformed(at))
                } else if next == close {
                    Ok(seq![item])
                } else if t[next as int].is_punct(","@) {
                    followed_by(seq![item], capture_list(t, (next + 1) as usize, close))
                } else {
                    Err(comma_missing(next))
                }
            },
        }
    }
}

/// The capture items that were read fill the range that they were read from.
pub proof fn lemma_capture_list_fills(t: Seq<TokenView>, at: usize, close: usize)
    requires
        at <= close,
    ensures
        capture_list(t, at, close) matches Ok(items) ==> items_fill(
            items,
            at as int,
            close as int,
        ),
    decreases close - at,
{
    if at < close {
        lemma_item_at_spans(t, at, close);
        match FnArgRet::item_at(t, at, close) {
            Ok((item, next)) => {
                if next == close {
                    assert(linked(seq![item], at as int, 0));
                } else if t[next as int].is_punct(","@) {
                    let after = (next + 1) as usize;
                    lemma_capture_list_fills(t, after, close);
                    match capture_list(t, after, close) {
                        Ok(rest) => {
                            let items = seq![item] + rest;
                            assert forall|k: int| 0 <= k < items.len() implies #[trigger] linked(
                                items,
                                at as int,
                                k,
                            ) by {
                                if k > 0 {
                                    assert(linked(rest, after as int, k - 1));
                                    assert(items[k] == rest[k - 1]);
                                    if k > 1 {
                                        assert(items[k - 1] == rest[k - 2]);
                                    }
                                }
                            }
                            if rest.len() > 0 {
                                assert(items.last() == rest.last());
                            }
                        },
                        Err(_) => {},
                    }
                }
            },
            Err(_) => {},
        }
    }
}

/// Whether a comma stands after every item but the last, and after the last
/// too where it does not end at `close`.
pub open spec fn commas_follow(t: Seq<TokenView>, items: Seq<FnArgRet>, close: int) -> bool {
    forall|k: int|
        0 <= k < items.len() && (#[trigger] items[k]).ty().end < close ==> t[items[k].ty().end as int].is_punct(
            ","@,
        )
}

/// In a capture list that was read, a comma stands after every item that is
/// followed by anything.
pub proof fn lemma_capture_list_commas(t: Seq<TokenView>, at: usize, close: usize)
    ensures
        capture_list(t, at, close) matches Ok(items) ==> commas_follow(t, items, close as int),
    decreases close - at,
{
    if at < close {
        lemma_item_at_spans(t, at, close);
        match FnArgRet::item_at(t, at, close) {
            Ok((item, next)) => {
                if at < next < close && t[next as int].is_punct(","@) {
                    let after = (next + 1) as usize;
                    lemma_capture_list_commas(t, after, close);
                    match capture_list(t, after, close) {
                        Ok(rest) => {
                            let items = seq![item] + rest;
                            assert forall|k: int|
                                0 <= k < items.len() && (#[trigger] items[k]).ty().end
                                    < close implies t[items[k].ty().end as int].is_punct(","@) by {
                                if k > 0 {
                                    assert(items[k] == rest[k - 1]);
                                }
                            }
                        },
                        Err(_) => {},
                    }
                }
            },
            Err(_) => {},
        }
    }
}

/// A capture list that was read is well formed: its parentheses are the
/// group that opens at `open`, and its items fill them.
pub proof fn lemma_named_at_well_formed(t: Seq<TokenView>, open: usize, end: usize)
    ensures
        Named::named_at(t, open, end) matches Ok(named) ==> named.well_formed(end as int)
            && named.paren_token.start == open && end <= t.len(),
{
    if open < end <= t.len() && t[open as int].kind == TokenKind::Open(Delimiter::Parenthesis) {
        lemma_close_from_bounds(t, open + 1, end as int, seq![Delimiter::Parenthesis]);
        match index(matching_close(t, open as int, end as int)) {
            Some(close) => {
                lemma_capture_list_fills(t, (open + 1) as usize, close);
            },
            None => {},
        }
    }
}

impl NamedView {
    /// Whether the parentheses lie within the first `len` positions and the
    /// items fill what is between them.
    pub open spec fn well_formed(self, len: int) -> bool {
        &&& self.paren_token.start + 2 <= self.paren_token.end <= len
        &&& items_fill(self.outputs, self.paren_token.start + 1, self.paren_token.end - 1)
    }
}

impl Named {
    /// The capture list whose opening parenthesis stands at `open`, read from
    /// the tokens before `end`.
    pub open spec fn named_at(t: Seq<TokenView>, open: usize, end: usize) -> Result<
        NamedView,
        ParseError,
    > {
        if !(open < end <= t.len() && t[open as int].kind == TokenKind::Open(
            Delimiter::Parenthesis,
        )) {
            Err(
                ParseError {
                    kind: ErrorKind::LexicalMismatch,
                    stage: Stage::CaptureList,
                    position: open,
                },
            )
        } else {
            match index(matching_close(t, open as int, end as int)) {
                None => Err(
                    ParseError {
                        kind: ErrorKind::BodyDelimiterUnbalanced,
                        stage: Stage::CaptureList,
                        position: open,
                    },
                ),
                Some(close) => match capture_list(t, (open + 1) as usize, close) {
                    Ok(items) => Ok(
                        NamedView {
                            paren_token: Span { start: open, end: (close + 1) as usize },
                            outputs: items,
                        },
                    ),
                    Err(e) => Err(e),
                },
            }
        }
    }

    /// Reads the capture list whose opening parenthesis stands at `open`.
    pub fn parse(tokens: &Vec<Token>, open: usize, end: usize) -> (r: Result<Named, ParseError>)
        ensures
            match r {
                Ok(named) => Named::named_at(tokens.deep_view(), open, end) == Ok::<
                    NamedView,
                    ParseError,
                >(named@),
                Err(e) => Named::named_at(tokens.deep_view(), open, end) == Err::<
                    NamedView,
                    ParseError,
                >(e),
            },
            r matches Ok(named) ==> named@.well_formed(end as int) && named.paren_token.start
                == open && end <= tokens.len(),
    {
        let ghost t = tokens.deep_view();
        if !(open < end && end <= tokens.len()) {
            return Err(ParseError::new(ErrorKind::LexicalMismatch, Stage::CaptureList, open));
        }
        match tokens[open].kind {
            TokenKind::Open(Delimiter::Parenthesis) => {},
            _ => {
                return Err(ParseError::new(ErrorKind::LexicalMismatch, Stage::CaptureList, open));
            },
        }
        let close = match find_close(tokens, open, end) {
            Some(close) => close,
            None => {
                return Err(
                    ParseError::new(ErrorKind::BodyDelimiterUnbalanced, Stage::CaptureList, open),
                );
            },
        };
        let mut outputs: Vec<FnArgRet> = Vec::new();
        let mut at: usize = open + 1;
        let mut last_end: usize = open;
        while at < close
            invariant
                open < at <= close < end <= tokens.len(),
                t == tokens.deep_view(),
                t[open as int].kind == TokenKind::Open(Delimiter::Parenthesis),
                index(matching_close(t, open as int, end as int)) == Some(close),
                capture_list(t, (open + 1) as usize, close) == followed_by(
                    outputs@,
                    capture_list(t, at, close),
                ),
                forall|k: int| 0 <= k < outputs@.len() ==> #[trigger] linked(outputs@, open + 1, k),
                if outputs@.len() == 0 {
                    at == open + 1
                } else if at < close {
                    outputs@.last().ty().end + 1 == at
                } else {
                    outputs@.last().ty().end == close || outputs@.last().ty().end + 1 == close
                },
            decreases close - at,
        {
            match FnArgRet::parse(tokens, at, close) {
                Err(e) => {
                    return Err(e);
                },
                Ok((item, next)) => {
                    let ghost before = outputs@;
                    outputs.push(item);
                    proof {
                        assert(outputs@ =~= before + seq![item]);
                        assert forall|k: int| 0 <= k < outputs@.len() implies #[trigger] linked(
                            outputs@,
                            open + 1,
                            k,
                        ) by {
                            if k < before.len() {
                                assert(linked(before, open + 1, k));
                            }
                        }
                    }
                    if next == close {
                        proof {
                            assert(before + seq![item] =~= outputs@ + Seq::<FnArgRet>::empty());
                        }
                        at = next;
                    } else if tokens[next].is_punct(",") {
                        proof {
                            let rest = capture_list(t, (next + 1) as usize, close);
                            match rest {
                                Ok(more) => {
                                    assert(before + (seq![item] + more) =~= outputs@ + more);
                                },
                                Err(_) => {},
                            }
                        }
                        at = next + 1;
                    } else {
                        return Err(
                            ParseError::new(ErrorKind::LexicalMismatch, Stage::CaptureList, next),
                        );
                    }
                },
            }
        }
        proof {
            assert(outputs@ + Seq::<FnArgRet>::empty() =~= outputs@);
        }
        Ok(Named { paren_token: Span { start: open, end: close + 1 }, outputs })
    }
}

} // verus!
