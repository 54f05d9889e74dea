//! A function item: its parts, and how it is read.

use crate::error::{ErrorKind, ParseError, Stage};
use crate::fn_decl::{
    lemma_parameters_at_well_formed, parameters_at, FnDecl, FnDeclView, Generics, Parameters,
    ParametersView,
};
use crate::return_type::{lemma_return_at_well_formed, ReturnType, ReturnTypeView};
use crate::syntax::{
    explain, find_end, grammar_end, ident_at, is_ident_at, lemma_grammar_end_bounds,
    lemma_read_is_not_refused, refused_at, unread, Grammar,
};
use crate::token::{
    after_trees, check_nesting, find_close, find_last_tree, first_unbalanced, index, last_tree,
    lemma_close_from_bounds, matching_close, skip_trees, Delimiter, Span, Token, TokenKind,
    TokenView,
};
use vstd::prelude::*;

verus! {

/// Where an attribute stands: before the item, or at the start of its body.
#[derive(Clone, Copy, Debug, PartialEq, Eq, Structural)]
pub enum AttrStyle {
    Outer,
    Inner,
}

/// An attribute: its style and its tokens.  The attributes that are read of
/// an item are outer ones, for the body is not read.
#[derive(Clone, Copy, Debug, PartialEq, Eq, Structural)]
pub struct Attribute {
    pub style: AttrStyle,
    pub span: Span,
}

/// The attributes of the given style, in their order.
pub open spec fn with_style(attrs: Seq<Attribute>, style: AttrStyle) -> Seq<Attribute>
    decreases attrs.len(),
{
    if attrs.len() == 0 {
        Seq::empty()
    } else if attrs.last().style == style {
        with_style(attrs.drop_last(), style).push(attrs.last())
    } else {
        with_style(attrs.drop_last(), style)
    }
}

/// Puts the outer attributes of an item before its inner ones.
pub fn attrs(outer: Vec<Attribute>, inner: Vec<Attribute>) -> (r: Vec<Attribute>)
    ensures
        r@ == outer@ + inner@,
{
    let ghost first = outer@;
    let mut attrs = outer;
    let mut k: usize = 0;
    proof {
        assert(first + inner@.take(0) =~= first);
    }
    while k < inner.len()
        invariant
            k <= inner@.len(),
            attrs@ == first + inner@.take(k as int),
        decreases inner@.len() - k,
    {
        attrs.push(inner[k]);
        proof {
            assert(first + inner@.take(k + 1) =~= (first + inner@.take(k as int)).push(
                inner@[k as int],
            ));
        }
        k = k + 1;
    }
    proof {
        assert(inner@.take(inner@.len() as int) =~= inner@);
    }
    attrs
}

/// Picks the attributes of one style.
fn filter_style(attrs: &Vec<Attribute>, style: AttrStyle) -> (r: Vec<Attribute>)
    ensures
        r@ == with_style(attrs@, style),
{
    let mut picked: Vec<Attribute> = Vec::new();
    let mut k: usize = 0;
    while k < attrs.len()
        invariant
            k <= attrs@.len(),
            picked@ == with_style(attrs@.take(k as int), style),
        decreases attrs@.len() - k,
    {
        proof {
            assert(attrs@.take(k + 1).drop_last() =~= attrs@.take(k as int));
        }
        if attrs[k].style == style {
            picked.push(attrs[k]);
        }
        k = k + 1;
    }
    proof {
        assert(attrs@.take(attrs@.len() as int) =~= attrs@);
    }
    picked
}

/// A collection of attributes that can be asked for those of one style.
pub trait FilterAttrs {
    /// The attributes of the collection, in their order.
    spec fn all(&self) -> Seq<Attribute>;

    /// The attributes that stand before the item.
    fn outer(&self) -> (r: Vec<Attribute>)
        ensures
            r@ == with_style(self.all(), AttrStyle::Outer),
    ;

    /// The attributes that stand at the start of the body.
    fn inner(&self) -> (r: Vec<Attribute>)
        ensures
            r@ == with_style(self.all(), AttrStyle::Inner),
    ;
}

impl FilterAttrs for Vec<Attribute> {
    open spec fn all(&self) -> Seq<Attribute> {
        self@
    }

    fn outer(&self) -> (r: Vec<Attribute>) {
        filter_style(self, AttrStyle::Outer)
    }

    fn inner(&self) -> (r: Vec<Attribute>) {
        filter_style(self, AttrStyle::Inner)
    }
}

/// What stands before the parameters of a function item, after its
/// attributes.
#[derive(Clone, Copy, Debug, PartialEq, Eq, Structural)]
pub struct Head {
    pub vis: Span,
    pub constness: Option<usize>,
    pub unsafety: Option<usize>,
    pub asyncness: Option<usize>,
    pub abi: Option<Span>,
    pub fn_token: usize,
    pub ident: usize,
    pub generics: Span,
}

/// A function item.  Every part is a position or a range of positions in the
/// tokens that the item was read from.
#[derive(Debug, PartialEq, Eq)]
pub struct ItemFn {
    pub attrs: Vec<Attribute>,
    pub vis: Span,
    pub constness: Option<usize>,
    pub unsafety: Option<usize>,
    pub asyncness: Option<usize>,
    pub abi: Option<Span>,
    pub ident: usize,
    pub decl: FnDecl,
    /// The body, from its opening brace to after its closing brace.
    pub block: Span,
}

/// The mathematical value of an [`ItemFn`].
pub struct ItemFnView {
    pub attrs: Seq<Attribute>,
    pub vis: Span,
    pub constness: Option<usize>,
    pub unsafety: Option<usize>,
    pub asyncness: Option<usize>,
    pub abi: Option<Span>,
    pub ident: usize,
    pub decl: FnDeclView,
    pub block: Span,
}

impl View for ItemFn {
    type V = ItemFnView;

    open spec fn view(&self) -> ItemFnView {
        ItemFnView {
            attrs: self.attrs@,
            vis: self.vis,
            constness: self.constness,
            unsafety: self.unsafety,
            asyncness: self.asyncness,
            abi: self.abi,
            ident: self.ident,
            decl: self.decl@,
            block: self.block,
        }
    }
}

/// A failure of the given kind, met at `at` while reading `stage`.
pub open spec fn failure(kind: ErrorKind, stage: Stage, at: usize) -> ParseError {
    ParseError { kind, stage, position: at }
}

/// Where the signature of the item ends: where its body starts, if the last
/// token tree of the item is a group in braces, and after the last token if
/// not.  The host grammar is asked about the tokens before this position
/// only, so that it never reads the body.
pub open spec fn signature_end(t: Seq<TokenView>) -> usize {
    let last = last_tree(t, 0, t.len() as int);
    if 0 <= last < t.len() && t[last].kind == TokenKind::Open(Delimiter::Brace) {
        last as usize
    } else {
        t.len() as usize
    }
}

/// Where the part of the given grammar ends that starts at `at` and may run
/// up to `end`, or the failure that is reported where no such part is read:
/// that the text is refused, or else the given one.
pub open spec fn staged(
    t: Seq<TokenView>,
    at: usize,
    end: usize,
    grammar: Grammar,
    kind: ErrorKind,
    stage: Stage,
) -> Result<usize, ParseError> {
    match index(grammar_end(t, at as int, end as int, grammar)) {
        Some(next) => Ok(next),
        None => Err(unread(t, at, end, grammar, failure(kind, stage, at))),
    }
}

/// The position `at` where the word stands there, else nothing.
pub open spec fn keyword_at(t: Seq<TokenView>, at: usize, word: Seq<char>) -> Option<usize> {
    if at < t.len() && t[at as int].is_word(word) {
        Some(at)
    } else {
        None
    }
}

/// The position after an optional keyword that was looked for at `at`.
pub open spec fn past(keyword: Option<usize>, at: usize) -> usize {
    match keyword {
        Some(_) => (at + 1) as usize,
        None => at,
    }
}

/// The position after an optional keyword that stands at `at` if it is
/// there, as a mathematical integer.
pub open spec fn beyond(keyword: Option<usize>, at: int) -> int {
    match keyword {
        Some(_) => at + 1,
        None => at,
    }
}

/// The range from `start` to `end`, or nothing where it is empty.
pub open spec fn nonempty(start: usize, end: usize) -> Option<Span> {
    if start < end {
        Some(Span { start, end })
    } else {
        None
    }
}

/// The outer attributes that fill the tokens from `at` up to `end`: each is
/// two token trees, the `#` and the bracketed group.
pub open spec fn outer_attributes(t: Seq<TokenView>, at: usize, end: usize) -> Option<
    Seq<Attribute>,
>
    decreases end - at,
{
    if at >= end {
        Some(Seq::empty())
    } else {
        match index(after_trees(t, at as int, end as int, 2)) {
            Some(next) => if at < next <= end {
                match outer_attributes(t, next, end) {
                    Some(rest) => Some(
                        seq![Attribute { style: AttrStyle::Outer, span: Span { start: at, end: next } }]
                            + rest,
                    ),
                    None => None,
                }
            } else {
                None
            },
            None => None,
        }
    }
}

/// The attributes at the start of a signature that ends at `end`, and the
/// position after them.
pub open spec fn attributes_at(t: Seq<TokenView>, end: usize) -> Result<
    (Seq<Attribute>, usize),
    ParseError,
> {
    match staged(
        t,
        0,
        end,
        Grammar::OuterAttributes,
        ErrorKind::LexicalMismatch,
        Stage::Attributes,
    ) {
        Err(e) => Err(e),
        Ok(next) => match outer_attributes(t, 0, next) {
            Some(attrs) => Ok((attrs, next)),
            None => Err(failure(ErrorKind::LexicalMismatch, Stage::Attributes, 0)),
        },
    }
}

/// What stands between the attributes, which end at `at`, and the
/// parameters: the visibility; the qualifiers `const`, `unsafe`, `async` and
/// an ABI, each of which may be missing, in this order; the keyword `fn`; the
/// name; the generic parameters.  The generic parameters are looked for in
/// all that follows the name, so a signature in which that text is not plain
/// is refused here.
pub open spec fn head_at(t: Seq<TokenView>, at: usize, end: usize) -> Result<Head, ParseError> {
    match staged(t, at, end, Grammar::Visibility, ErrorKind::LexicalMismatch, Stage::Visibility) {
        Err(e) => Err(e),
        Ok(vis_end) => {
            let constness = keyword_at(t, vis_end, "const"@);
            let after_const = past(constness, vis_end);
            let unsafety = keyword_at(t, after_const, "unsafe"@);
            let after_unsafe = past(unsafety, after_const);
            let asyncness = keyword_at(t, after_unsafe, "async"@);
            let after_async = past(asyncness, after_unsafe);
            match staged(
                t,
                after_async,
                end,
                Grammar::Abi,
                ErrorKind::LexicalMismatch,
                Stage::Abi,
            ) {
                Err(e) => Err(e),
                Ok(abi_end) => {
                    if keyword_at(t, abi_end, "fn"@) is None {
                        Err(failure(ErrorKind::LexicalMismatch, Stage::FnKeyword, abi_end))
                    } else if !ident_at(t, abi_end + 1) {
                        Err(
                            failure(
                                ErrorKind::LexicalMismatch,
                                Stage::Ident,
                                (abi_end + 1) as usize,
                            ),
                        )
                    } else {
                        match staged(
                            t,
                            (abi_end + 2) as usize,
                            end,
                            Grammar::Generics,
                            ErrorKind::GenericsOrWhereClauseMalformed,
                            Stage::Generics,
                        ) {
                            Err(e) => Err(e),
                            Ok(generics_end) => Ok(
                                Head {
                                    vis: Span { start: at, end: vis_end },
                                    constness,
                                    unsafety,
                                    asyncness,
                                    abi: nonempty(after_async, abi_end),
                                    fn_token: abi_end,
                                    ident: (abi_end + 1) as usize,
                                    generics: Span {
                                        start: (abi_end + 2) as usize,
                                        end: generics_end,
                                    },
                                },
                            ),
                        }
                    }
                },
            }
        },
    }
}

/// The body that starts at `at`: an opening brace whose closing brace is the
/// last token.
pub open spec fn body_at(t: Seq<TokenView>, at: usize) -> Result<Span, ParseError> {
    if !(at < t.len() && t[at as int].kind == TokenKind::Open(Delimiter::Brace)) {
        Err(failure(ErrorKind::LexicalMismatch, Stage::Body, at))
    } else {
        match index(matching_close(t, at as int, t.len() as int)) {
            None => Err(failure(ErrorKind::BodyDelimiterUnbalanced, Stage::Body, at)),
            Some(close) => if close + 1 == t.len() {
                Ok(Span { start: at, end: (close + 1) as usize })
            } else {
                Err(failure(ErrorKind::LexicalMismatch, Stage::Body, (close + 1) as usize))
            },
        }
    }
}

/// The signature of a function item: all of it but the body.
pub struct SignatureView {
    pub attrs: Seq<Attribute>,
    pub head: Head,
    pub parameters: ParametersView,
    pub output: ReturnTypeView,
    pub where_clause: Span,
}

/// The signature that ends at `end`: the attributes, what stands between them
/// and the parameters, the parameters, the return clause and the `where`
/// clause.
pub open spec fn signature_at(t: Seq<TokenView>, end: usize) -> Result<
    SignatureView,
    ParseError,
> {
    match attributes_at(t, end) {
        Err(e) => Err(e),
        Ok((attrs, attrs_end)) => match head_at(t, attrs_end, end) {
            Err(e) => Err(e),
            Ok(head) => match parameters_at(t, head.generics.end, end) {
                Err(e) => Err(e),
                Ok(parameters) => match ReturnType::return_at(
                    t,
                    parameters.paren_token.end,
                    end,
                ) {
                    Err(e) => Err(e),
                    Ok((output, output_end)) => match staged(
                        t,
                        output_end,
                        end,
                        Grammar::WhereClause,
                        ErrorKind::GenericsOrWhereClauseMalformed,
                        Stage::WhereClause,
                    ) {
                        Err(e) => Err(e),
                        Ok(where_end) => Ok(
                            SignatureView {
                                attrs,
                                head,
                                parameters,
                                output,
                                where_clause: Span { start: output_end, end: where_end },
                            },
                        ),
                    },
                },
            },
        },
    }
}

/// Where a signature reads, what follows its name is not refused for its
/// text.
pub proof fn lemma_signature_not_refused(t: Seq<TokenView>, end: usize)
    ensures
        signature_at(t, end) matches Ok(signature) ==> refused_at(
            t,
            signature.head.generics.start,
            end,
        ) is None,
{
    if let Ok(signature) = signature_at(t, end) {
        lemma_read_is_not_refused(
            t,
            signature.head.generics.start as int,
            end as int,
            Grammar::Generics,
        );
    }
}

/// The function item with the given signature and body.
pub open spec fn item_of(signature: SignatureView, block: Span) -> ItemFnView {
    ItemFnView {
        attrs: signature.attrs,
        vis: signature.head.vis,
        constness: signature.head.constness,
        unsafety: signature.head.unsafety,
        asyncness: signature.head.asyncness,
        abi: signature.head.abi,
        ident: signature.head.ident,
        decl: FnDeclView {
            fn_token: signature.head.fn_token,
            generics: Generics {
                params: signature.head.generics,
                where_clause: signature.where_clause,
            },
            paren_token: signature.parameters.paren_token,
            inputs: signature.parameters.inputs,
            variadic: signature.parameters.variadic,
            output: signature.output,
        },
        block,
    }
}

/// The function item that the tokens are.
///
/// The brackets have to nest.  Then the parts are read in their order, and
/// the first that cannot be read decides the failure.  The body is not read:
/// it is the group in braces that the item ends with.
pub open spec fn item_at(t: Seq<TokenView>) -> Result<ItemFnView, ParseError> {
    match index(first_unbalanced(t, 0, t.len() as int)) {
        Some(bad) => Err(failure(ErrorKind::BodyDelimiterUnbalanced, Stage::Nesting, bad)),
        None => match signature_at(t, signature_end(t)) {
            Err(e) => Err(e),
            Ok(signature) => match body_at(t, signature.where_clause.end) {
                Err(e) => Err(e),
                Ok(block) => Ok(item_of(signature, block)),
            },
        },
    }
}

/// Whether the attribute at `k` is an outer one, is not empty and starts
/// where it should: the first at `from`, any other where the one before it
/// ends.
pub open spec fn attribute_linked(attrs: Seq<Attribute>, from: int, k: int) -> bool {
    let start = if k == 0 {
        from
    } else {
        attrs[k - 1].span.end as int
    };
    &&& attrs[k].style == AttrStyle::Outer
    &&& attrs[k].span.start == start
    &&& attrs[k].span.start < attrs[k].span.end
}

/// Whether the attributes are outer ones that fill the tokens from `from` up
/// to `end`, one after the other.
pub open spec fn attributes_fill(attrs: Seq<Attribute>, from: int, end: int) -> bool {
    &&& from <= end
    &&& forall|k: int| 0 <= k < attrs.len() ==> #[trigger] attribute_linked(attrs, from, k)
    &&& if attrs.len() == 0 {
        from == end
    } else {
        attrs.last().span.end == end
    }
}

/// The outer attributes that were read fill the range that they were read
/// from.
pub proof fn lemma_outer_attributes_fill(t: Seq<TokenView>, at: usize, end: usize)
    requires
        at <= end,
    ensures
        outer_attributes(t, at, end) matches Some(attrs) ==> attributes_fill(
            attrs,
            at as int,
            end as int,
        ),
    decreases end - at,
{
    if at < end {
        match index(after_trees(t, at as int, end as int, 2)) {
            Some(next) => {
                if at < next <= end {
                    lemma_outer_attributes_fill(t, next, end);
                    match outer_attributes(t, next, end) {
                        Some(rest) => {
                            let first = Attribute {
                                style: AttrStyle::Outer,
                                span: Span { start: at, end: next },
                            };
                            let attrs = seq![first] + rest;
                            assert forall|k: int| 0 <= k < attrs.len() implies #[trigger] attribute_linked(
                                attrs,
                                at as int,
                                k,
                            ) by {
                                if k > 0 {
                                    assert(attribute_linked(rest, next as int, k - 1));
                                    assert(attrs[k] == rest[k - 1]);
                                    if k > 1 {
                                        assert(attrs[k - 1] == rest[k - 2]);
                                    }
                                }
                            }
                            if rest.len() > 0 {
                                assert(attrs.last() == rest.last());
                            }
                        },
                        None => {},
                    }
                }
            },
            None => {},
        }
    }
}

impl ItemFnView {
    /// Whether the parts of the item follow each other in the order of the
    /// grammar, from the first token to the last of `len` tokens.
    pub open spec fn well_formed(self, len: int) -> bool {
        let after_const = beyond(self.constness, self.vis.end as int);
        let after_unsafe = beyond(self.unsafety, after_const);
        let after_async = beyond(self.asyncness, after_unsafe);
        &&& attributes_fill(self.attrs, 0, self.vis.start as int)
        &&& self.vis.start <= self.vis.end <= after_const <= after_unsafe <= after_async
            <= self.decl.fn_token
        &&& self.constness matches Some(at) ==> at == self.vis.end
        &&& self.unsafety matches Some(at) ==> at == after_const
        &&& self.asyncness matches Some(at) ==> at == after_unsafe
        &&& self.abi matches Some(abi) ==> abi.start == after_async && abi.start < abi.end
            == self.decl.fn_token
        &&& self.abi is None ==> after_async == self.decl.fn_token
        &&& self.decl.fn_token < len
        &&& self.ident == self.decl.fn_token + 1
        &&& self.decl.generics.params.start == self.ident + 1
        &&& self.decl.generics.params.start <= self.decl.generics.params.end
            == self.decl.paren_token.start
        &&& (ParametersView {
            paren_token: self.decl.paren_token,
            inputs: self.decl.inputs,
            variadic: self.decl.variadic,
        }).well_formed(len)
        &&& self.decl.output.well_formed(
            self.decl.paren_token.end as int,
            self.decl.generics.where_clause.start as int,
            len,
        )
        &&& self.decl.generics.where_clause.start <= self.decl.generics.where_clause.end
            == self.block.start
        &&& self.block.start + 2 <= self.block.end == len
    }
}

/// A part that was read ends at or after its start and within the tokens.
pub proof fn lemma_staged_bounds(
    t: Seq<TokenView>,
    at: usize,
    end: usize,
    grammar: Grammar,
    kind: ErrorKind,
    stage: Stage,
)
    ensures
        staged(t, at, end, grammar, kind, stage) matches Ok(next) ==> at <= next <= end
            <= t.len(),
{
    lemma_grammar_end_bounds(t, at as int, end as int, grammar);
}

/// A function item that was read is well formed.
pub proof fn lemma_item_at_well_formed(t: Seq<TokenView>)
    requires
        t.len() <= usize::MAX,
    ensures
        item_at(t) matches Ok(item) ==> item.well_formed(t.len() as int),
{
    match item_at(t) {
        Ok(item) => {
            let end = signature_end(t);
            let (_, attrs_end) = attributes_at(t, end)->Ok_0;
            let head = head_at(t, attrs_end, end)->Ok_0;
            lemma_outer_attributes_fill(t, 0, attrs_end);
            lemma_staged_bounds(
                t,
                attrs_end,
                end,
                Grammar::Visibility,
                ErrorKind::LexicalMismatch,
                Stage::Visibility,
            );
            let after_async = past(
                head.asyncness,
                past(head.unsafety, past(head.constness, head.vis.end)),
            );
            lemma_staged_bounds(
                t,
                after_async,
                end,
                Grammar::Abi,
                ErrorKind::LexicalMismatch,
                Stage::Abi,
            );
            lemma_staged_bounds(
                t,
                (head.fn_token + 2) as usize,
                end,
                Grammar::Generics,
                ErrorKind::GenericsOrWhereClauseMalformed,
                Stage::Generics,
            );
            lemma_parameters_at_well_formed(t, head.generics.end, end);
            let parameters = parameters_at(t, head.generics.end, end)->Ok_0;
            lemma_return_at_well_formed(t, parameters.paren_token.end, end);
            let (_, output_end) = ReturnType::return_at(t, parameters.paren_token.end, end)->Ok_0;
            lemma_staged_bounds(
                t,
                output_end,
                end,
                Grammar::WhereClause,
                ErrorKind::GenericsOrWhereClauseMalformed,
                Stage::WhereClause,
            );
            let where_end = item.block.start;
            lemma_close_from_bounds(t, where_end + 1, t.len() as int, seq![Delimiter::Brace]);
        },
        Err(_) => {},
    }
}

/// Reads the part of the given grammar that starts at `at`.
fn read_stage(
    tokens: &Vec<Token>,
    at: usize,
    end: usize,
    grammar: Grammar,
    kind: ErrorKind,
    stage: Stage,
) -> (r: Result<usize, ParseError>)
    ensures
        r == staged(tokens.deep_view(), at, end, grammar, kind, stage),
        r matches Ok(next) ==> at <= next <= end <= tokens.len(),
{
    match find_end(tokens, at, end, grammar) {
        Some(next) => Ok(next),
        None => Err(explain(tokens, at, end, grammar, ParseError::new(kind, stage, at))),
    }
}

/// Looks for the word at `at`.
fn keyword(tokens: &Vec<Token>, at: usize, word: &str) -> (r: Option<usize>)
    ensures
        r == keyword_at(tokens.deep_view(), at, word@),
        r is Some ==> at < tokens.len(),
{
    if at < tokens.len() && tokens[at].is_word(word) {
        Some(at)
    } else {
        None
    }
}

/// Splits the tokens from `start` up to `end` into outer attributes.
fn split_attributes(tokens: &Vec<Token>, start: usize, end: usize) -> (r: Option<Vec<Attribute>>)
    ensures
        match r {
            Some(attrs) => outer_attributes(tokens.deep_view(), start, end) == Some(attrs@),
            None => outer_attributes(tokens.deep_view(), start, end) is None,
        },
{
    let ghost t = tokens.deep_view();
    let mut attrs: Vec<Attribute> = Vec::new();
    let mut at: usize = start;
    while at < end
        invariant
            t == tokens.deep_view(),
            match outer_attributes(t, at, end) {
                Some(rest) => outer_attributes(t, start, end) == Some(attrs@ + rest),
                None => outer_attributes(t, start, end) is None,
            },
        decreases end - at,
    {
        match skip_trees(tokens, at, end, 2) {
            Some(next) => {
                let attr = Attribute { style: AttrStyle::Outer, span: Span { start: at, end: next } };
                proof {
                    match outer_attributes(t, next, end) {
                        Some(rest) => {
                            assert(attrs@ + (seq![attr] + rest) =~= attrs@.push(attr) + rest);
                        },
                        None => {},
                    }
                }
                attrs.push(attr);
                at = next;
            },
            None => {
                return None;
            },
        }
    }
    proof {
        assert(attrs@ + Seq::<Attribute>::empty() =~= attrs@);
    }
    Some(attrs)
}

/// Reads the attributes at the start of a signature that ends at `end`.
fn parse_attributes(tokens: &Vec<Token>, end: usize) -> (r: Result<
    (Vec<Attribute>, usize),
    ParseError,
>)
    ensures
        match r {
            Ok((attrs, next)) => attributes_at(tokens.deep_view(), end) == Ok::<
                (Seq<Attribute>, usize),
                ParseError,
            >((attrs@, next)),
            Err(e) => attributes_at(tokens.deep_view(), end) == Err::<
                (Seq<Attribute>, usize),
                ParseError,
            >(e),
        },
        r matches Ok((_, next)) ==> next <= end <= tokens.len(),
{
    match read_stage(
        tokens,
        0,
        end,
        Grammar::OuterAttributes,
        ErrorKind::LexicalMismatch,
        Stage::Attributes,
    ) {
        Err(e) => Err(e),
        Ok(next) => match split_attributes(tokens, 0, next) {
            Some(attrs) => Ok((attrs, next)),
            None => Err(ParseError::new(ErrorKind::LexicalMismatch, Stage::Attributes, 0)),
        },
    }
}

/// Reads what stands between the attributes and the parameters.
fn parse_head(tokens: &Vec<Token>, at: usize, end: usize) -> (r: Result<Head, ParseError>)
    ensures
        r == head_at(tokens.deep_view(), at, end),
        r matches Ok(head) ==> {
            &&& head.vis.start == at
            &&& head.generics.end <= end <= tokens.len()
            &&& head.generics.start == head.ident + 1
            &&& head.ident == head.fn_token + 1
            &&& head.vis.start <= head.vis.end
            &&& head.constness matches Some(k) ==> k == head.vis.end
            &&& head.unsafety matches Some(k) ==> k == past(head.constness, head.vis.end)
            &&& head.asyncness matches Some(k) ==> k == past(
                head.unsafety,
                past(head.constness, head.vis.end),
            )
            &&& head.abi matches Some(abi) ==> abi.start == past(
                head.asyncness,
                past(head.unsafety, past(head.constness, head.vis.end)),
            ) && abi.start < abi.end == head.fn_token
            &&& head.abi is None ==> head.fn_token == past(
                head.asyncness,
                past(head.unsafety, past(head.constness, head.vis.end)),
            )
            &&& head.generics.start <= head.generics.end
        },
{
    let vis_end = match read_stage(
        tokens,
        at,
        end,
        Grammar::Visibility,
        ErrorKind::LexicalMismatch,
        Stage::Visibility,
    ) {
        Ok(next) => next,
        Err(e) => {
            return Err(e);
        },
    };
    let constness = keyword(tokens, vis_end, "const");
    let after_const: usize = if constness.is_some() {
        vis_end + 1
    } else {
        vis_end
    };
    let unsafety = keyword(tokens, after_const, "unsafe");
    let after_unsafe: usize = if unsafety.is_some() {
        after_const + 1
    } else {
        after_const
    };
    let asyncness = keyword(tokens, after_unsafe, "async");
    let after_async: usize = if asyncness.is_some() {
        after_unsafe + 1
    } else {
        after_unsafe
    };
    let abi_end = match read_stage(
        tokens,
        after_async,
        end,
        Grammar::Abi,
        ErrorKind::LexicalMismatch,
        Stage::Abi,
    ) {
        Ok(next) => next,
        Err(e) => {
            return Err(e);
        },
    };
    if keyword(tokens, abi_end, "fn").is_none() {
        return Err(ParseError::new(ErrorKind::LexicalMismatch, Stage::FnKeyword, abi_end));
    }
    if !is_ident_at(tokens, abi_end + 1) {
        return Err(ParseError::new(ErrorKind::LexicalMismatch, Stage::Ident, abi_end + 1));
    }
    let generics_end = match read_stage(
        tokens,
        abi_end + 2,
        end,
        Grammar::Generics,
        ErrorKind::GenericsOrWhereClauseMalformed,
        Stage::Generics,
    ) {
        Ok(next) => next,
        Err(e) => {
            return Err(e);
        },
    };
    let abi = if after_async < abi_end {
        Some(Span { start: after_async, end: abi_end })
    } else {
        None
    };
    Ok(
        Head {
            vis: Span { start: at, end: vis_end },
            constness,
            unsafety,
            asyncness,
            abi,
            fn_token: abi_end,
            ident: abi_end + 1,
            generics: Span { start: abi_end + 2, end: generics_end },
        },
    )
}

/// Reads the body that starts at `at`.
fn parse_body(tokens: &Vec<Token>, at: usize) -> (r: Result<Span, ParseError>)
    ensures
        r == body_at(tokens.deep_view(), at),
        r matches Ok(block) ==> block.start == at && at + 2 <= block.end == tokens.len(),
{
    let len: usize = tokens.len();
    if !(at < len) {
        return Err(ParseError::new(ErrorKind::LexicalMismatch, Stage::Body, at));
    }
    match tokens[at].kind {
        TokenKind::Open(Delimiter::Brace) => {},
        _ => {
            return Err(ParseError::new(ErrorKind::LexicalMismatch, Stage::Body, at));
        },
    }
    match find_close(tokens, at, len) {
        None => Err(ParseError::new(ErrorKind::BodyDelimiterUnbalanced, Stage::Body, at)),
        Some(close) => {
            if close + 1 == len {
                Ok(Span { start: at, end: close + 1 })
            } else {
                Err(ParseError::new(ErrorKind::LexicalMismatch, Stage::Body, close + 1))
            }
        },
    }
}

impl ItemFn {
    /// Reads a function item from its tokens.
    pub fn parse(tokens: &Vec<Token>) -> (r: Result<ItemFn, ParseError>)
        ensures
            match r {
                Ok(item) => item_at(tokens.deep_view()) == Ok::<ItemFnView, ParseError>(item@),
                Err(e) => item_at(tokens.deep_view()) == Err::<ItemFnView, ParseError>(e),
            },
            r matches Ok(item) ==> item@.well_formed(tokens.len() as int),
    {
        let len: usize = tokens.len();
        match check_nesting(tokens) {
            Some(bad) => {
                return Err(ParseError::new(ErrorKind::BodyDelimiterUnbalanced, Stage::Nesting, bad));
            },
            None => {},
        }
        let last = find_last_tree(tokens);
        let body_follows = last < len && match tokens[last].kind {
            TokenKind::Open(Delimiter::Brace) => true,
            _ => false,
        };
        let end: usize = if body_follows {
            last
        } else {
            len
        };
        let (attrs, attrs_end) = match parse_attributes(tokens, end) {
            Ok(found) => found,
            Err(e) => {
                return Err(e);
            },
        };
        let head = match parse_head(tokens, attrs_end, end) {
            Ok(head) => head,
            Err(e) => {
                return Err(e);
            },
        };
        let parameters = match Parameters::parse(tokens, head.generics.end, end) {
            Ok(parameters) => parameters,
            Err(e) => {
                return Err(e);
            },
        };
        let (output, output_end) = match ReturnType::parse(
            tokens,
            parameters.paren_token.end,
            end,
        ) {
            Ok(found) => found,
            Err(e) => {
                return Err(e);
            },
        };
        let where_end = match read_stage(
            tokens,
            output_end,
            end,
            Grammar::WhereClause,
            ErrorKind::GenericsOrWhereClauseMalformed,
            Stage::WhereClause,
        ) {
            Ok(next) => next,
            Err(e) => {
                return Err(e);
            },
        };
        let block = match parse_body(tokens, where_end) {
            Ok(block) => block,
            Err(e) => {
                return Err(e);
            },
        };
        proof {
            lemma_item_at_well_formed(tokens.deep_view());
        }
        Ok(
            ItemFn {
                attrs,
                vis: head.vis,
                constness: head.constness,
                unsafety: head.unsafety,
                asyncness: head.asyncness,
                abi: head.abi,
                ident: head.ident,
                decl: FnDecl {
                    fn_token: head.fn_token,
                    generics: Generics {
                        params: head.generics,
                        where_clause: Span { start: output_end, end: where_end },
                    },
                    paren_token: parameters.paren_token,
                    inputs: parameters.inputs,
                    variadic: parameters.variadic,
                    output,
                },
                block,
            },
        )
    }
}

} // verus!
