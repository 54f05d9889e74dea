//! The return clause of a function item, and what becomes of it.

use crate::error::{ErrorKind, ParseError, Stage};
use crate::fn_arg_ret::{ArgCaptured, FnArgRet};
use crate::named::{lemma_named_at_well_formed, Named, NamedView};
use crate::syntax::{explain, find_end, grammar_end, lemma_grammar_end_bounds, unread, Grammar};
use crate::token::{index, Delimiter, Span, Token, TokenKind, TokenView};
use vstd::prelude::*;

verus! {

/// The return clause as it was written.
#[derive(Debug, PartialEq, Eq)]
pub enum ReturnType {
    /// No arrow: the function returns nothing.
    Default,
    /// An arrow and a capture list.  The number is the position of the arrow.
    Named(usize, Named),
    /// An arrow and an ordinary type.  The number is the position of the
    /// arrow.
    Type(usize, Span),
}

/// The mathematical value of a [`ReturnType`].
pub enum ReturnTypeView {
    Default,
    Named(usize, NamedView),
    Type(usize, Span),
}

impl View for ReturnType {
    type V = ReturnTypeView;

    open spec fn view(&self) -> ReturnTypeView {
        match *self {
            ReturnType::Default => ReturnTypeView::Default,
            ReturnType::Named(arrow, named) => ReturnTypeView::Named(arrow, named@),
            ReturnType::Type(arrow, ty) => ReturnTypeView::Type(arrow, ty),
        }
    }
}

/// The return type that an ordinary function item gets.
#[derive(Debug, PartialEq, Eq)]
pub enum SimpleReturn {
    /// No return type.
    Default,
    /// One type, written after the arrow at `arrow`.
    Single { arrow: usize, ty: Span },
    /// A tuple of two or more types within the parentheses of the capture
    /// list.
    Tuple { arrow: usize, paren_token: Span, elems: Vec<Span> },
}

/// The mathematical value of a [`SimpleReturn`].
pub enum SimpleReturnView {
    Default,
    Single { arrow: usize, ty: Span },
    Tuple { arrow: usize, paren_token: Span, elems: Seq<Span> },
}

impl View for SimpleReturn {
    type V = SimpleReturnView;

    open spec fn view(&self) -> SimpleReturnView {
        match *self {
            SimpleReturn::Default => SimpleReturnView::Default,
            SimpleReturn::Single { arrow, ty } => SimpleReturnView::Single { arrow, ty },
            SimpleReturn::Tuple { arrow, paren_token, elems } => SimpleReturnView::Tuple {
                arrow,
                paren_token,
                elems: elems@,
            },
        }
    }
}

/// The types of the items, in their order.
pub open spec fn types_of(items: Seq<FnArgRet>) -> Seq<Span> {
    Seq::new(items.len(), |k: int| items[k].ty())
}

/// The named captures among the items, in their order.
pub open spec fn bound_of(items: Seq<FnArgRet>) -> Seq<ArgCaptured>
    decreases items.len(),
{
    if items.len() == 0 {
        Seq::empty()
    } else {
        match items.last() {
            FnArgRet::Captured(captured) => bound_of(items.drop_last()).push(captured),
            FnArgRet::Ignored(_) => bound_of(items.drop_last()),
        }
    }
}

/// Every named capture among the items is one of the items.
pub proof fn lemma_bound_of_items(items: Seq<FnArgRet>, k: int)
    requires
        0 <= k < bound_of(items).len(),
    ensures
        exists|j: int| 0 <= j < items.len() && #[trigger] items[j] == FnArgRet::Captured(bound_of(items)[k]),
    decreases items.len(),
{
    if items.len() > 0 {
        let front = items.drop_last();
        match items.last() {
            FnArgRet::Captured(captured) => {
                if k < bound_of(front).len() {
                    lemma_bound_of_items(front, k);
                    let j = choose|j: int|
                        0 <= j < front.len() && #[trigger] front[j] == FnArgRet::Captured(
                            bound_of(front)[k],
                        );
                    assert(items[j] == front[j]);
                } else {
                    assert(items[items.len() - 1] == FnArgRet::Captured(bound_of(items)[k]));
                }
            },
            FnArgRet::Ignored(_) => {
                lemma_bound_of_items(front, k);
                let j = choose|j: int|
                    0 <= j < front.len() && #[trigger] front[j] == FnArgRet::Captured(
                        bound_of(front)[k],
                    );
                assert(items[j] == front[j]);
            },
        }
    }
}

/// Whether an arrow stands at `at`: a joint `-` and a `>` before `end`.
pub open spec fn arrow_at(t: Seq<TokenView>, at: usize, end: usize) -> bool {
    &&& at + 1 < end <= t.len()
    &&& t[at as int].is_punct("-"@)
    &&& t[at as int].joint
    &&& t[at + 1].is_punct(">"@)
}

/// The failure for an arrow that no type follows.
pub open spec fn type_missing(at: usize) -> ParseError {
    ParseError { kind: ErrorKind::LexicalMismatch, stage: Stage::ReturnType, position: at }
}

/// The ordinary type after the arrow at `arrow`.
pub open spec fn plain_type_at(t: Seq<TokenView>, arrow: usize, end: usize) -> Result<
    (ReturnTypeView, usize),
    ParseError,
> {
    let after = (arrow + 2) as usize;
    match index(grammar_end(t, after as int, end as int, Grammar::Type)) {
        Some(q) => if after < q {
            Ok((ReturnTypeView::Type(arrow, Span { start: after, end: q }), q))
        } else {
            Err(type_missing(after))
        },
        None => Err(unread(t, after, end, Grammar::Type, type_missing(after))),
    }
}

/// The mathematical value of a capture list that was read, or of the failure
/// to read one.
pub open spec fn viewed_list(named: Result<Named, ParseError>) -> Result<NamedView, ParseError> {
    match named {
        Ok(list) => Ok(list@),
        Err(e) => Err(e),
    }
}

/// The mathematical value of a return clause that was read, or of the
/// failure to read one.
pub open spec fn viewed_clause(clause: Result<(ReturnType, usize), ParseError>) -> Result<
    (ReturnTypeView, usize),
    ParseError,
> {
    match clause {
        Ok((found, next)) => Ok((found@, next)),
        Err(e) => Err(e),
    }
}

/// A return clause that was read is well formed: it starts where it was
/// looked for and ends where the reading stopped.
pub proof fn lemma_return_at_well_formed(t: Seq<TokenView>, at: usize, end: usize)
    ensures
        ReturnType::return_at(t, at, end) matches Ok((clause, next)) ==> clause.well_formed(
            at as int,
            next as int,
            end as int,
        ) && (clause is Default || end <= t.len()),
{
    if arrow_at(t, at, end) {
        lemma_grammar_end_bounds(t, at + 2, end as int, Grammar::Type);
        lemma_named_at_well_formed(t, (at + 2) as usize, end);
    }
}

impl ReturnTypeView {
    /// The items of the capture list; none where there is no capture list.
    pub open spec fn items(self) -> Seq<FnArgRet> {
        match self {
            ReturnTypeView::Named(_, named) => named.outputs,
            _ => Seq::empty(),
        }
    }

    /// Whether the clause lies in order between `from` and `to`, which are
    /// the positions before and after it, and within the first `len`
    /// positions.
    pub open spec fn well_formed(self, from: int, to: int, len: int) -> bool {
        match self {
            ReturnTypeView::Default => from == to,
            ReturnTypeView::Named(arrow, named) => {
                &&& arrow == from
                &&& named.paren_token.start == from + 2
                &&& named.paren_token.end == to
                &&& named.well_formed(len)
            },
            ReturnTypeView::Type(arrow, ty) => {
                &&& arrow == from
                &&& ty.start == from + 2
                &&& ty.start < ty.end == to <= len
            },
        }
    }

    /// The return type of the ordinary function item.  No capture list, or
    /// one without items: none.  One item: its type alone.  Two or more: the
    /// tuple of their types, in their order.
    pub open spec fn simple(self) -> SimpleReturnView {
        match self {
            ReturnTypeView::Default => SimpleReturnView::Default,
            ReturnTypeView::Type(arrow, ty) => SimpleReturnView::Single { arrow, ty },
            ReturnTypeView::Named(arrow, named) => {
                if named.outputs.len() == 0 {
                    SimpleReturnView::Default
                } else if named.outputs.len() == 1 {
                    SimpleReturnView::Single { arrow, ty: named.outputs[0].ty() }
                } else {
                    SimpleReturnView::Tuple {
                        arrow,
                        paren_token: named.paren_token,
                        elems: types_of(named.outputs),
                    }
                }
            },
        }
    }

    /// The named captures that the body has to declare: those of the capture
    /// list, in their order, or `None` where there is none.
    pub open spec fn captures(self) -> Option<Seq<ArgCaptured>> {
        let bound = bound_of(self.items());
        if bound.len() == 0 {
            None
        } else {
            Some(bound)
        }
    }
}

impl ReturnType {
    /// The return clause after an arrow that an opening parenthesis follows,
    /// given how the parenthesised tokens read as a capture list and how what
    /// follows the arrow reads as an ordinary type.  The capture list wins.
    /// Where there is none, the clause is the ordinary type; where there is
    /// neither, it fails as the capture list failed.
    pub open spec fn chosen(
        arrow: usize,
        named: Result<NamedView, ParseError>,
        plain: Result<(ReturnTypeView, usize), ParseError>,
    ) -> Result<(ReturnTypeView, usize), ParseError> {
        match named {
            Ok(list) => Ok((ReturnTypeView::Named(arrow, list), list.paren_token.end)),
            Err(e) => match plain {
                Ok(clause) => Ok(clause),
                Err(_) => Err(e),
            },
        }
    }

    /// The return clause that starts at `at`, and the position after it.
    ///
    /// No arrow at `at`: no clause.  An arrow and an opening parenthesis: the
    /// capture list, where the parenthesised tokens read as one; where they do
    /// not, the clause is an ordinary type if the host grammar reads one, and
    /// fails as the capture list failed if not.  An arrow and anything else:
    /// an ordinary type.
    pub open spec fn return_at(t: Seq<TokenView>, at: usize, end: usize) -> Result<
        (ReturnTypeView, usize),
        ParseError,
    > {
        if !arrow_at(t, at, end) {
            Ok((ReturnTypeView::Default, at))
        } else if at + 2 < end && t[at + 2].kind == TokenKind::Open(Delimiter::Parenthesis) {
            ReturnType::chosen(
                at,
                Named::named_at(t, (at + 2) as usize, end),
                plain_type_at(t, at, end),
            )
        } else {
            plain_type_at(t, at, end)
        }
    }

    /// Chooses between the two readings of a return clause that starts with
    /// an arrow and an opening parenthesis.
    pub fn select(
        arrow: usize,
        named: Result<Named, ParseError>,
        plain: Result<(ReturnType, usize), ParseError>,
    ) -> (r: Result<(ReturnType, usize), ParseError>)
        ensures
            match r {
                Ok((clause, next)) => ReturnType::chosen(
                    arrow,
                    viewed_list(named),
                    viewed_clause(plain),
                ) == Ok::<(ReturnTypeView, usize), ParseError>((clause@, next)),
                Err(e) => ReturnType::chosen(arrow, viewed_list(named), viewed_clause(plain))
                    == Err::<(ReturnTypeView, usize), ParseError>(e),
            },
            r matches Ok((clause, next)) ==> (named matches Ok(list) && clause
                == ReturnType::Named(arrow, list) && next == list.paren_token.end) || (
            named is Err && plain == Ok::<(ReturnType, usize), ParseError>((clause, next))),
    {
        match named {
            Ok(list) => {
                let next = list.paren_token.end;
                Ok((ReturnType::Named(arrow, list), next))
            },
            Err(e) => match plain {
                Ok(clause) => Ok(clause),
                Err(_) => Err(e),
            },
        }
    }

    /// Reads the ordinary type after the arrow at `arrow`.
    fn parse_plain(tokens: &Vec<Token>, arrow: usize, end: usize) -> (r: Result<
        (ReturnType, usize),
        ParseError,
    >)
        requires
            arrow + 2 <= end <= tokens.len(),
        ensures
            match r {
                Ok((clause, next)) => plain_type_at(tokens.deep_view(), arrow, end) == Ok::<
                    (ReturnTypeView, usize),
                    ParseError,
                >((clause@, next)),
                Err(e) => plain_type_at(tokens.deep_view(), arrow, end) == Err::<
                    (ReturnTypeView, usize),
                    ParseError,
                >(e),
            },
            r matches Ok((clause, next)) ==> clause@.well_formed(
                arrow as int,
                next as int,
                end as int,
            ),
    {
        let after: usize = arrow + 2;
        match find_end(tokens, after, end, Grammar::Type) {
            Some(q) => {
                if after < q {
                    Ok((ReturnType::Type(arrow, Span { start: after, end: q }), q))
                } else {
                    Err(ParseError::new(ErrorKind::LexicalMismatch, Stage::ReturnType, after))
                }
            },
            None => Err(
                explain(
                    tokens,
                    after,
                    end,
                    Grammar::Type,
                    ParseError::new(ErrorKind::LexicalMismatch, Stage::ReturnType, after),
                ),
            ),
        }
    }

    /// Reads the return clause that starts at `at`, if one does.
    pub fn parse(tokens: &Vec<Token>, at: usize, end: usize) -> (r: Result<
        (ReturnType, usize),
        ParseError,
    >)
        ensures
            match r {
                Ok((clause, next)) => ReturnType::return_at(tokens.deep_view(), at, end) == Ok::<
                    (ReturnTypeView, usize),
                    ParseError,
                >((clause@, next)),
                Err(e) => ReturnType::return_at(tokens.deep_view(), at, end) == Err::<
                    (ReturnTypeView, usize),
                    ParseError,
                >(e),
            },
            r matches Ok((clause, next)) ==> clause@.well_formed(
                at as int,
                next as int,
                end as int,
            ) && (end <= tokens.len() || clause is Default),
    {
        if !(end <= tokens.len() && at < end && at + 1 < end) {
            return Ok((ReturnType::Default, at));
        }
        if !(tokens[at].is_punct("-") && tokens[at].joint && tokens[at + 1].is_punct(">")) {
            return Ok((ReturnType::Default, at));
        }
        let after: usize = at + 2;
        let parenthesised = after < end && match tokens[after].kind {
            TokenKind::Open(Delimiter::Parenthesis) => true,
            _ => false,
        };
        if parenthesised {
            let named = Named::parse(tokens, after, end);
            let plain = ReturnType::parse_plain(tokens, at, end);
            ReturnType::select(at, named, plain)
        } else {
            ReturnType::parse_plain(tokens, at, end)
        }
    }

    /// Works out the return type of the ordinary function item.
    pub fn simple(&self) -> (r: SimpleReturn)
        ensures
            r@ == self@.simple(),
    {
        match self {
            ReturnType::Default => SimpleReturn::Default,
            ReturnType::Type(arrow, ty) => SimpleReturn::Single { arrow: *arrow, ty: *ty },
            ReturnType::Named(arrow, named) => {
                let n: usize = named.outputs.len();
                if n == 0 {
                    SimpleReturn::Default
                } else if n == 1 {
                    SimpleReturn::Single { arrow: *arrow, ty: named.outputs[0].type_span() }
                } else {
                    let mut elems: Vec<Span> = Vec::new();
                    let mut k: usize = 0;
                    while k < n
                        invariant
                            k <= n == named.outputs@.len(),
                            elems@.len() == k,
                            forall|j: int| 0 <= j < k ==> elems@[j] == named.outputs@[j].ty(),
                        decreases n - k,
                    {
                        elems.push(named.outputs[k].type_span());
                        k = k + 1;
                    }
                    proof {
                        assert(elems@ =~= types_of(named.outputs@));
                    }
                    SimpleReturn::Tuple { arrow: *arrow, paren_token: named.paren_token, elems }
                }
            },
        }
    }

    /// Collects the named captures that the body has to declare.
    pub fn captures(&self) -> (r: Option<Vec<ArgCaptured>>)
        ensures
            match r {
                Some(bound) => self@.captures() == Some(bound@),
                None => self@.captures() is None,
            },
    {
        match self {
            ReturnType::Named(_, named) => {
                let n: usize = named.outputs.len();
                let mut bound: Vec<ArgCaptured> = Vec::new();
                let mut k: usize = 0;
                while k < n
                    invariant
                        k <= n == named.outputs@.len(),
                        bound@ == bound_of(named.outputs@.take(k as int)),
                    decreases n - k,
                {
                    proof {
                        assert(named.outputs@.take(k + 1).drop_last() =~= named.outputs@.take(
                            k as int,
                        ));
                    }
                    match named.outputs[k] {
                        FnArgRet::Captured(captured) => {
                            bound.push(captured);
                        },
                        FnArgRet::Ignored(_) => {},
                    }
                    k = k + 1;
                }
                proof {
                    assert(named.outputs@.take(n as int) =~= named.outputs@);
                }
                if bound.len() == 0 {
                    None
                } else {
                    Some(bound)
                }
            },
            _ => None,
        }
    }
}

} // verus!
