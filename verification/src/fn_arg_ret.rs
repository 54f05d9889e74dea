//! One item of a capture list.
//!
//! An item is a named capture, `pattern : type`, or a type alone.  The
//! pattern is whatever the host grammar reads as a pattern: a name, a name
//! with `mut`, a tuple of names and so on.  Whether two captures bind the same
//! name is not looked at: the compiler of the ordinary item decides what
//! that means.

use crate::error::{ErrorKind, ParseError, Stage};
use crate::syntax::{explain, find_end, grammar_end, lemma_grammar_end_bounds, unread, Grammar};
use crate::token::{index, Span, Token, TokenView};
use vstd::prelude::*;

verus! {

/// A named capture, `pattern : type`: where its three parts stand.
#[derive(Clone, Copy, Debug, PartialEq, Eq, Structural)]
pub struct ArgCaptured {
    pub pat: Span,
    pub colon_token: usize,
    pub ty: Span,
}

/// An item of a capture list: a named capture, or a type alone.
#[derive(Clone, Copy, Debug, PartialEq, Eq, Structural)]
pub enum FnArgRet {
    /// `pattern : type`: a value that the body binds and returns.
    Captured(ArgCaptured),
    /// A type alone: a value that is returned and has no name.
    Ignored(Span),
}

impl ArgCaptured {
    /// Whether the three parts follow each other between `from` and `to` and
    /// neither the pattern nor the type is empty.
    pub open spec fn within(self, from: int, to: int) -> bool {
        &&& from <= self.pat.start < self.pat.end == self.colon_token
        &&& self.colon_token + 1 == self.ty.start < self.ty.end <= to
    }

    /// The named capture that starts at `at`, given where the host grammar
    /// says that a pattern read at `at` ends, whether a colon stands there,
    /// and where a type read after the colon ends.
    pub open spec fn assembled(
        at: usize,
        end: usize,
        pat_end: Option<usize>,
        colon: bool,
        ty_end: Option<usize>,
    ) -> Option<ArgCaptured> {
        match (pat_end, ty_end) {
            (Some(p), Some(q)) => if at < p < end && colon && p + 1 < q <= end {
                Some(
                    ArgCaptured {
                        pat: Span { start: at, end: p },
                        colon_token: p,
                        ty: Span { start: (p + 1) as usize, end: q },
                    },
                )
            } else {
                None
            },
            _ => None,
        }
    }

    /// Puts a named capture together from what the host grammar found.
    pub fn assemble(
        at: usize,
        end: usize,
        pat_end: Option<usize>,
        colon: bool,
        ty_end: Option<usize>,
    ) -> (r: Option<ArgCaptured>)
        ensures
            r == ArgCaptured::assembled(at, end, pat_end, colon, ty_end),
            r matches Some(captured) ==> captured.within(at as int, end as int),
    {
        match (pat_end, ty_end) {
            (Some(p), Some(q)) => {
                if at < p && p < end && colon && p + 1 < q && q <= end {
                    Some(
                        ArgCaptured {
                            pat: Span { start: at, end: p },
                            colon_token: p,
                            ty: Span { start: p + 1, end: q },
                        },
                    )
                } else {
                    None
                }
            },
            _ => None,
        }
    }
}

/// Whether a colon stands at the position where the pattern ends.
pub open spec fn colon_after(t: Seq<TokenView>, pat_end: Option<usize>, end: usize) -> bool {
    match pat_end {
        Some(p) => p < end <= t.len() && t[p as int].is_punct(":"@),
        None => false,
    }
}

/// The reading of the tokens from `at` as `pattern : type`, where there is
/// one: the pattern as the host grammar reads it at `at`, a colon, and the
/// type as the host grammar reads it after the colon.
pub open spec fn captured_at(t: Seq<TokenView>, at: usize, end: usize) -> Option<ArgCaptured> {
    let pat_end = index(grammar_end(t, at as int, end as int, Grammar::Pattern));
    let colon = colon_after(t, pat_end, end);
    let ty_end = if colon {
        index(grammar_end(t, pat_end.unwrap() + 1, end as int, Grammar::Type))
    } else {
        None
    };
    ArgCaptured::assembled(at, end, pat_end, colon, ty_end)
}

/// Reads `pattern : type` from the tokens that start at `at`.
pub fn arg_captured(tokens: &Vec<Token>, at: usize, end: usize) -> (r: Option<ArgCaptured>)
    ensures
        r == captured_at(tokens.deep_view(), at, end),
        r matches Some(captured) ==> captured.within(at as int, end as int) && end
            <= tokens.len(),
{
    let pat_end = find_end(tokens, at, end, Grammar::Pattern);
    let colon = match pat_end {
        Some(p) => p < end && tokens[p].is_punct(":"),
        None => false,
    };
    let ty_end = match pat_end {
        Some(p) => {
            if colon {
                find_end(tokens, p + 1, end, Grammar::Type)
            } else {
                None
            }
        },
        None => None,
    };
    ArgCaptured::assemble(at, end, pat_end, colon, ty_end)
}

impl FnArgRet {
    /// The type of the item.
    pub open spec fn ty(self) -> Span {
        match self {
            FnArgRet::Captured(captured) => captured.ty,
            FnArgRet::Ignored(ty) => ty,
        }
    }

    /// The type of the item.
    pub fn type_span(&self) -> (r: Span)
        ensures
            r == self.ty(),
    {
        match self {
            FnArgRet::Captured(captured) => captured.ty,
            FnArgRet::Ignored(ty) => *ty,
        }
    }

    /// Whether the item starts at `from`, ends at `to` and is put together in
    /// order.
    pub open spec fn spans(self, from: int, to: int) -> bool {
        match self {
            FnArgRet::Captured(captured) => captured.within(from, to) && captured.pat.start
                == from && captured.ty.end == to,
            FnArgRet::Ignored(ty) => ty.start == from < ty.end == to,
        }
    }

    /// What the item at `at` is, and where it ends, given its reading as a
    /// named capture, if it has one, and where the host grammar says that a
    /// type read at `at` ends.  The named capture wins.  An item with neither
    /// reading is malformed.
    pub open spec fn classified(
        at: usize,
        end: usize,
        captured: Option<ArgCaptured>,
        bare_end: Option<usize>,
    ) -> Result<(FnArgRet, usize), ParseError> {
        match captured {
            Some(c) => Ok((FnArgRet::Captured(c), c.ty.end)),
            None => match bare_end {
                Some(q) => if at < q <= end {
                    Ok((FnArgRet::Ignored(Span { start: at, end: q }), q))
                } else {
                    Err(FnArgRet::malformed(at))
                },
                None => Err(FnArgRet::malformed(at)),
            },
        }
    }

    /// The failure for an item at `at` that is neither `pattern : type` nor a
    /// type.
    pub open spec fn malformed(at: usize) -> ParseError {
        ParseError {
            kind: ErrorKind::CaptureItemMalformed,
            stage: Stage::CaptureItem,
            position: at,
        }
    }

    /// The capture item that starts at `at`, and the position after it: the
    /// named capture where the tokens read as one, else the type alone.  Where
    /// they read as neither because their text is refused, the failure says
    /// so.
    pub open spec fn item_at(t: Seq<TokenView>, at: usize, end: usize) -> Result<
        (FnArgRet, usize),
        ParseError,
    > {
        match FnArgRet::classified(
            at,
            end,
            captured_at(t, at, end),
            index(grammar_end(t, at as int, end as int, Grammar::Type)),
        ) {
            Ok(item) => Ok(item),
            Err(e) => Err(unread(t, at, end, Grammar::Type, e)),
        }
    }

    /// Decides what a capture item is from its two readings.
    pub fn classify(
        at: usize,
        end: usize,
        captured: Option<ArgCaptured>,
        bare_end: Option<usize>,
    ) -> (r: Result<(FnArgRet, usize), ParseError>)
        ensures
            r == FnArgRet::classified(at, end, captured, bare_end),
    {
        match captured {
            Some(c) => Ok((FnArgRet::Captured(c), c.ty.end)),
            None => match bare_end {
                Some(q) => {
                    if at < q && q <= end {
                        Ok((FnArgRet::Ignored(Span { start: at, end: q }), q))
                    } else {
                        Err(ParseError::new(ErrorKind::CaptureItemMalformed, Stage::CaptureItem, at))
                    }
                },
                None => Err(
                    ParseError::new(ErrorKind::CaptureItemMalformed, Stage::CaptureItem, at),
                ),
            },
        }
    }

    /// Reads the capture item that starts at `at`: first as `pattern : type`
    /// and, where that fails, as a type alone.
    pub fn parse(tokens: &Vec<Token>, at: usize, end: usize) -> (r: Result<
        (FnArgRet, usize),
        ParseError,
    >)
        ensures
            r == FnArgRet::item_at(tokens.deep_view(), at, end),
            r matches Ok((item, next)) ==> item.spans(at as int, next as int) && next <= end
                <= tokens.len(),
    {
        let captured = arg_captured(tokens, at, end);
        let bare_end = find_end(tokens, at, end, Grammar::Type);
        match FnArgRet::classify(at, end, captured, bare_end) {
            Ok(item) => Ok(item),
            Err(e) => Err(explain(tokens, at, end, Grammar::Type, e)),
        }
    }
}

/// A capture item that was read is put together in order, starts where it was
/// looked for, is not empty and ends by `end`.
pub proof fn lemma_item_at_spans(t: Seq<TokenView>, at: usize, end: usize)
    ensures
        FnArgRet::item_at(t, at, end) matches Ok((item, next)) ==> item.spans(
            at as int,
            next as int,
        ) && at < next <= end <= t.len(),
{
    lemma_grammar_end_bounds(t, at as int, end as int, Grammar::Type);
    lemma_grammar_end_bounds(t, at as int, end as int, Grammar::Pattern);
}

} // verus!
