//! The declaration of a function: what stands between the qualifiers and the
//! body.

use crate::error::{ErrorKind, ParseError, Stage};
use crate::return_type::{ReturnType, ReturnTypeView};
use crate::syntax::{explain, find_end, grammar_end, lemma_grammar_end_bounds, unread, Grammar};
use crate::token::{
    find_close, index, lemma_close_from_bounds, matching_close, Delimiter, Span, Token, TokenKind,
    TokenView,
};
use vstd::prelude::*;

verus! {

/// The generic parameters of a function and its `where` clause.  Either may
/// be empty.
#[derive(Clone, Copy, Debug, PartialEq, Eq, Structural)]
pub struct Generics {
    /// The parameters with their angle brackets, after the function's name.
    pub params: Span,
    /// The `where` clause, after the return clause.
    pub where_clause: Span,
}

/// The declaration of a function.
#[derive(Debug, PartialEq, Eq)]
pub struct FnDecl {
    /// The position of the keyword `fn`.
    pub fn_token: usize,
    pub generics: Generics,
    /// From the opening parenthesis of the parameters to after the closing
    /// one.
    pub paren_token: Span,
    /// The parameters, in their order.
    pub inputs: Vec<Span>,
    /// Whether the last parameter ends in the variadic marker `...`.
    pub variadic: bool,
    pub output: ReturnType,
}

/// The mathematical value of a [`FnDecl`].
pub struct FnDeclView {
    pub fn_token: usize,
    pub generics: Generics,
    pub paren_token: Span,
    pub inputs: Seq<Span>,
    pub variadic: bool,
    pub output: ReturnTypeView,
}

impl View for FnDecl {
    type V = FnDeclView;

    open spec fn view(&self) -> FnDeclView {
        FnDeclView {
            fn_token: self.fn_token,
            generics: self.generics,
            paren_token: self.paren_token,
            inputs: self.inputs@,
            variadic: self.variadic,
            output: self.output@,
        }
    }
}

/// The parenthesised parameters of a function.
#[derive(Debug, PartialEq, Eq)]
pub struct Parameters {
    pub paren_token: Span,
    pub inputs: Vec<Span>,
    pub variadic: bool,
}

/// The mathematical value of a [`Parameters`].
pub struct ParametersView {
    pub paren_token: Span,
    pub inputs: Seq<Span>,
    pub variadic: bool,
}

impl View for Parameters {
    type V = ParametersView;

    open spec fn view(&self) -> ParametersView {
        ParametersView {
            paren_token: self.paren_token,
            inputs: self.inputs@,
            variadic: self.variadic,
        }
    }
}

/// The failure for a parameter list that cannot be read at `at`.
pub open spec fn parameter_failure(at: usize) -> ParseError {
    ParseError { kind: ErrorKind::LexicalMismatch, stage: Stage::Parameters, position: at }
}

/// A list of parameters before what follows it, where that could be read.
pub open spec fn parameters_then(
    inputs: Seq<Span>,
    rest: Result<Seq<Span>, ParseError>,
) -> Result<Seq<Span>, ParseError> {
    match rest {
        Ok(more) => Ok(inputs + more),
        Err(e) => Err(e),
    }
}

/// The parameters from `at` up to `close`: each as the host grammar reads it,
/// separated by commas, with or without a comma after the last.
pub open spec fn parameter_list(t: Seq<TokenView>, at: usize, close: usize) -> Result<
    Seq<Span>,
    ParseError,
>
    decreases close - at,
{
    if at >= close {
        Ok(Seq::empty())
    } else {
        match index(grammar_end(t, at as int, close as int, Grammar::FnArg)) {
            None => Err(unread(t, at, close, Grammar::FnArg, parameter_failure(at))),
            Some(next) => {
                if !(at < next <= close) {
                    Err(parameter_failure(at))
                } else if next == close {
                    Ok(seq![Span { start: at, end: next }])
                } else if t[next as int].is_punct(","@) {
                    parameters_then(
                        seq![Span { start: at, end: next }],
                        parameter_list(t, (next + 1) as usize, close),
                    )
                } else {
                    Err(parameter_failure(next))
                }
            },
        }
    }
}

/// Whether the three tokens before `end` are the variadic marker `...`: three
/// dots, the first two of them joint.
pub open spec fn dots_before(t: Seq<TokenView>, end: int) -> bool {
    &&& 3 <= end <= t.len()
    &&& t[end - 3].is_punct("."@) && t[end - 3].joint
    &&& t[end - 2].is_punct("."@) && t[end - 2].joint
    &&& t[end - 1].is_punct("."@)
}

/// Whether the parameters end in the variadic marker: the last of them has
/// no comma after it, is longer than the marker, and ends in it.
pub open spec fn is_variadic(t: Seq<TokenView>, inputs: Seq<Span>, close: usize) -> bool {
    &&& inputs.len() > 0
    &&& inputs.last().end == close
    &&& inputs.last().start + 3 < inputs.last().end
    &&& dots_before(t, close as int)
}

/// The parameters whose opening parenthesis stands at `open`.
pub open spec fn parameters_at(t: Seq<TokenView>, open: usize, end: usize) -> Result<
    ParametersView,
    ParseError,
> {
    if !(open < end <= t.len() && t[open as int].kind == TokenKind::Open(
        Delimiter::Parenthesis,
    )) {
        Err(parameter_failure(open))
    } else {
        match index(matching_close(t, open as int, end as int)) {
            None => Err(
                ParseError {
                    kind: ErrorKind::BodyDelimiterUnbalanced,
                    stage: Stage::Parameters,
                    position: open,
                },
            ),
            Some(close) => match parameter_list(t, (open + 1) as usize, close) {
                Ok(inputs) => Ok(
                    ParametersView {
                        paren_token: Span { start: open, end: (close + 1) as usize },
                        inputs,
                        variadic: is_variadic(t, inputs, close),
                    },
                ),
                Err(e) => Err(e),
            },
        }
    }
}

/// Every parameter that was read lies in the range that it was read from and
/// is not empty.
pub proof fn lemma_parameter_list_within(t: Seq<TokenView>, at: usize, close: usize)
    ensures
        parameter_list(t, at, close) matches Ok(inputs) ==> forall|k: int|
            0 <= k < inputs.len() ==> at <= (#[trigger] inputs[k]).start < inputs[k].end <= close,
    decreases close - at,
{
    if at < close {
        lemma_grammar_end_bounds(t, at as int, close as int, Grammar::FnArg);
        match index(grammar_end(t, at as int, close as int, Grammar::FnArg)) {
            Some(next) => {
                if at < next < close && t[next as int].is_punct(","@) {
                    lemma_parameter_list_within(t, (next + 1) as usize, close);
                }
            },
            None => {},
        }
    }
}

/// Parameters that were read are well formed: their parentheses are the group
/// that opens at `open`, and every parameter lies between them.
pub proof fn lemma_parameters_at_well_formed(t: Seq<TokenView>, open: usize, end: usize)
    ensures
        parameters_at(t, open, end) matches Ok(parameters) ==> parameters.well_formed(end as int)
            && parameters.paren_token.start == open && end <= t.len(),
{
    if open < end <= t.len() && t[open as int].kind == TokenKind::Open(Delimiter::Parenthesis) {
        lemma_close_from_bounds(t, open + 1, end as int, seq![Delimiter::Parenthesis]);
        match index(matching_close(t, open as int, end as int)) {
            Some(close) => {
                lemma_parameter_list_within(t, (open + 1) as usize, close);
            },
            None => {},
        }
    }
}

impl ParametersView {
    /// Whether the parentheses lie in order within the first `len` positions
    /// and every parameter lies between them.
    pub open spec fn well_formed(self, len: int) -> bool {
        &&& self.paren_token.start + 2 <= self.paren_token.end <= len
        &&& forall|k: int|
            0 <= k < self.inputs.len() ==> self.paren_token.start < (#[trigger] self.inputs[k]).start
                < self.inputs[k].end < self.paren_token.end
    }
}

impl Parameters {
    /// Reads the parameters whose opening parenthesis stands at `open`.
    pub fn parse(tokens: &Vec<Token>, open: usize, end: usize) -> (r: Result<
        Parameters,
        ParseError,
    >)
        ensures
            match r {
                Ok(parameters) => parameters_at(tokens.deep_view(), open, end) == Ok::<
                    ParametersView,
                    ParseError,
                >(parameters@),
                Err(e) => parameters_at(tokens.deep_view(), open, end) == Err::<
                    ParametersView,
                    ParseError,
                >(e),
            },
            r matches Ok(parameters) ==> parameters@.well_formed(end as int)
                && parameters.paren_token.start == open && end <= tokens.len(),
    {
        let ghost t = tokens.deep_view();
        if !(open < end && end <= tokens.len()) {
            return Err(ParseError::new(ErrorKind::LexicalMismatch, Stage::Parameters, open));
        }
        match tokens[open].kind {
            TokenKind::Open(Delimiter::Parenthesis) => {},
            _ => {
                return Err(ParseError::new(ErrorKind::LexicalMismatch, Stage::Parameters, open));
            },
        }
        let close = match find_close(tokens, open, end) {
            Some(close) => close,
            None => {
                return Err(
                    ParseError::new(ErrorKind::BodyDelimiterUnbalanced, Stage::Parameters, open),
                );
            },
        };
        let mut inputs: Vec<Span> = Vec::new();
        let mut at: usize = open + 1;
        while at < close
            invariant
                open < at <= close < end <= tokens.len(),
                t == tokens.deep_view(),
                t[open as int].kind == TokenKind::Open(Delimiter::Parenthesis),
                index(matching_close(t, open as int, end as int)) == Some(close),
                parameter_list(t, (open + 1) as usize, close) == parameters_then(
                    inputs@,
                    parameter_list(t, at, close),
                ),
                forall|k: int|
                    0 <= k < inputs@.len() ==> open < (#[trigger] inputs@[k]).start
                        < inputs@[k].end <= close,
            decreases close - at,
        {
            match find_end(tokens, at, close, Grammar::FnArg) {
                None => {
                    return Err(
                        explain(
                            tokens,
                            at,
                            close,
                            Grammar::FnArg,
                            ParseError::new(ErrorKind::LexicalMismatch, Stage::Parameters, at),
                        ),
                    );
                },
                Some(next) => {
                    if !(at < next) {
                        return Err(
                            ParseError::new(ErrorKind::LexicalMismatch, Stage::Parameters, at),
                        );
                    }
                    let ghost before = inputs@;
                    let input = Span { start: at, end: next };
                    inputs.push(input);
                    proof {
                        assert(inputs@ =~= before + seq![input]);
                    }
                    if next == close {
                        proof {
                            assert(before + seq![input] =~= inputs@ + Seq::<Span>::empty());
                        }
                        at = next;
                    } else if tokens[next].is_punct(",") {
                        proof {
                            let rest = parameter_list(t, (next + 1) as usize, close);
                            match rest {
                                Ok(more) => {
                                    assert(before + (seq![input] + more) =~= inputs@ + more);
                                },
                                Err(_) => {},
                            }
                        }
                        at = next + 1;
                    } else {
                        return Err(
                            ParseError::new(ErrorKind::LexicalMismatch, Stage::Parameters, next),
                        );
                    }
                },
            }
        }
        proof {
            assert(inputs@ + Seq::<Span>::empty() =~= inputs@);
        }
        let n: usize = inputs.len();
        let variadic = n > 0 && inputs[n - 1].end == close && close >= 3 && inputs[n - 1].start < close - 3
            && tokens[close - 3].is_punct(".") && tokens[close - 3].joint && tokens[close
            - 2].is_punct(".") && tokens[close - 2].joint && tokens[close - 1].is_punct(".");
        Ok(Parameters { paren_token: Span { start: open, end: close + 1 }, inputs, variadic })
    }
}

} // verus!
