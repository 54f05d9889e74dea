//! The host grammar: what this library asks of `syn`.
//!
//! The grammar of a function item is this library's own.  The grammars of the
//! parts that it is made of (a type, a pattern, a list of generic parameters
//! and so on) are the host's, and `syn` reads them, from a text that it has
//! `proc_macro2` split into tokens.  Nothing is proved of what `syn` answers.
//! Each answer has a name here, a function of the text that was handed over,
//! and the contracts of the library speak of those names.
//!
//! A type, a pattern, a parameter, generic parameters and a `where` clause
//! are read from plain texts only (see [`crate::plain`]): from texts that
//! nowhere read as bound lifetimes, `dyn` and a lifetime, on which `syn` stops
//! the program.  From any other text no such part is read, and the failure
//! to read it says at which token the text is refused (see [`unread`]).  In
//! a function item the generic parameters are looked for in all that follows
//! the name, so an item is refused there or not at all: every part of one
//! that is not refused is plain.
//!
//! A part is read from the start of a text.  `syn` says how many token trees
//! it has left unread, the library counts how many it has written, and walks
//! the difference in its own tokens.

use crate::token::{
    after_trees, count_trees, first_unbalanced, lemma_after_trees_bounds,
    lemma_balanced_after_trees, lemma_rendered_joined, position, render_range, rendered,
    skip_trees, tree_count, tree_end, Token, TokenKind, TokenView,
};
use crate::error::{ErrorKind, ParseError, Stage};
use crate::plain::{is_plain, lemma_part_of_plain, plain};
use proc_macro2::TokenStream;
use syn::parse::{ParseStream, Parser};
use vstd::prelude::*;

verus! {

/// How many token trees `syn` leaves unread after the outer attributes at the
/// start of `text`, or `None` where it rejects the text.
pub uninterp spec fn after_outer_attributes(text: Seq<char>) -> Option<usize>;

/// How many token trees `syn` leaves unread after the visibility at the start
/// of `text`, or `None` where it rejects the text.
pub uninterp spec fn after_visibility(text: Seq<char>) -> Option<usize>;

/// How many token trees `syn` leaves unread after the ABI at the start of
/// `text`, if there is one, or `None` where it rejects the text.
pub uninterp spec fn after_abi(text: Seq<char>) -> Option<usize>;

/// How many token trees `syn` leaves unread after the generic parameters at
/// the start of `text`, if there are any, or `None` where it rejects the text.
pub uninterp spec fn after_generics(text: Seq<char>) -> Option<usize>;

/// How many token trees `syn` leaves unread after the function parameter at
/// the start of `text`, or `None` where the text starts with none.
pub uninterp spec fn after_fn_arg(text: Seq<char>) -> Option<usize>;

/// How many token trees `syn` leaves unread after the pattern at the start of
/// `text`, or `None` where the text starts with none.
pub uninterp spec fn after_pattern(text: Seq<char>) -> Option<usize>;

/// How many token trees `syn` leaves unread after the type at the start of
/// `text`, or `None` where the text starts with none.
pub uninterp spec fn after_type(text: Seq<char>) -> Option<usize>;

/// How many token trees `syn` leaves unread after the `where` clause at the
/// start of `text`, if there is one, or `None` where it rejects the text.
pub uninterp spec fn after_where_clause(text: Seq<char>) -> Option<usize>;

/// Whether `syn` takes the whole of `text` for one identifier.
pub uninterp spec fn accepts_ident(text: Seq<char>) -> bool;

/// Reads zero or more outer attributes from the start of `text` with
/// `syn::Attribute::parse_outer`, and counts the token trees left unread.
/// The result is `None` where the text is no token stream or `syn` reports an
/// error.
///
/// Taken on trust: that the result depends on the text alone.  What it is,
/// is not stated; it has the name [`after_outer_attributes`].
#[verifier::external_body]
fn read_outer_attributes(text: &str) -> (rest: Option<usize>)
    ensures
        rest == after_outer_attributes(text@),
{
    let read = |input: ParseStream| -> syn::Result<TokenStream> {
        input.call(syn::Attribute::parse_outer)?;
        input.parse()
    };
    read.parse_str(text).ok().map(|rest| rest.into_iter().count())
}

/// Reads a visibility, which may be empty, from the start of `text` with the
/// parser of `syn::Visibility`, and counts the token trees left unread.  The
/// result is `None` where the text is no token stream or `syn` reports an
/// error.
///
/// Taken on trust: that the result depends on the text alone.  What it is,
/// is not stated; it has the name [`after_visibility`].
#[verifier::external_body]
fn read_visibility(text: &str) -> (rest: Option<usize>)
    ensures
        rest == after_visibility(text@),
{
    let read = |input: ParseStream| -> syn::Result<TokenStream> {
        input.parse::<syn::Visibility>()?;
        input.parse()
    };
    read.parse_str(text).ok().map(|rest| rest.into_iter().count())
}

/// Reads an ABI (`extern`, with or without a name) from the start of `text`,
/// if it starts with one, with the parser of `Option<syn::Abi>`, and counts
/// the token trees left unread.  The result is `None` where the text is no
/// token stream or `syn` reports an error.
///
/// Taken on trust: that the result depends on the text alone.  What it is,
/// is not stated; it has the name [`after_abi`].
#[verifier::external_body]
fn read_abi(text: &str) -> (rest: Option<usize>)
    ensures
        rest == after_abi(text@),
{
    let read = |input: ParseStream| -> syn::Result<TokenStream> {
        input.parse::<Option<syn::Abi>>()?;
        input.parse()
    };
    read.parse_str(text).ok().map(|rest| rest.into_iter().count())
}

/// Reads generic parameters in angle brackets from the start of `text`, if it
/// starts with `<`, with the parser of `syn::Generics`, and counts the token
/// trees left unread.  The result is `None` where the text is no token stream
/// or `syn` reports an error.
///
/// Only a plain text is read: a text that is not may hold a type such as
/// `for<'a> dyn 'b + T`, on which the type parser of `syn` stops the program.
///
/// Taken on trust: that on a plain text the call returns, and that its
/// result depends on the text alone.  What the result is, is not stated; it
/// has the name [`after_generics`].
#[verifier::external_body]
fn read_generics(text: &str) -> (rest: Option<usize>)
    requires
        plain(text@),
    ensures
        rest == after_generics(text@),
{
    let read = |input: ParseStream| -> syn::Result<TokenStream> {
        input.parse::<syn::Generics>()?;
        input.parse()
    };
    read.parse_str(text).ok().map(|rest| rest.into_iter().count())
}

/// Reads one function parameter from the start of `text` with the parser of
/// `syn::FnArg`, and counts the token trees left unread.  The result is
/// `None` where the text is no token stream or `syn` reports an error.
///
/// Only a plain text is read: a text that is not may hold a type such as
/// `for<'a> dyn 'b + T`, on which the type parser of `syn` stops the program.
///
/// Taken on trust: that on a plain text the call returns, and that its
/// result depends on the text alone.  What the result is, is not stated; it
/// has the name [`after_fn_arg`].
#[verifier::external_body]
fn read_fn_arg(text: &str) -> (rest: Option<usize>)
    requires
        plain(text@),
    ensures
        rest == after_fn_arg(text@),
{
    let read = |input: ParseStream| -> syn::Result<TokenStream> {
        input.parse::<syn::FnArg>()?;
        input.parse()
    };
    read.parse_str(text).ok().map(|rest| rest.into_iter().count())
}

/// Reads one pattern from the start of `text` with the parser of `syn::Pat`,
/// and counts the token trees left unread.  The result is `None` where the
/// text is no token stream or `syn` reports an error.
///
/// Only a plain text is read: a text that is not may hold a type such as
/// `for<'a> dyn 'b + T`, on which the type parser of `syn` stops the program.
///
/// Taken on trust: that on a plain text the call returns, and that its
/// result depends on the text alone.  What the result is, is not stated; it
/// has the name [`after_pattern`].
#[verifier::external_body]
fn read_pattern(text: &str) -> (rest: Option<usize>)
    requires
        plain(text@),
    ensures
        rest == after_pattern(text@),
{
    let read = |input: ParseStream| -> syn::Result<TokenStream> {
        input.parse::<syn::Pat>()?;
        input.parse()
    };
    read.parse_str(text).ok().map(|rest| rest.into_iter().count())
}

/// Reads one type from the start of `text` with the parser of `syn::Type`,
/// and counts the token trees left unread.  The result is `None` where the
/// text is no token stream or `syn` reports an error.
///
/// Only a plain text is read: a text that is not may hold a type such as
/// `for<'a> dyn 'b + T`, on which the type parser of `syn` stops the program.
///
/// Taken on trust: that on a plain text the call returns, and that its
/// result depends on the text alone.  What the result is, is not stated; it
/// has the name [`after_type`].
#[verifier::external_body]
fn read_type(text: &str) -> (rest: Option<usize>)
    requires
        plain(text@),
    ensures
        rest == after_type(text@),
{
    let read = |input: ParseStream| -> syn::Result<TokenStream> {
        input.parse::<syn::Type>()?;
        input.parse()
    };
    read.parse_str(text).ok().map(|rest| rest.into_iter().count())
}

/// Reads a `where` clause from the start of `text`, if it starts with
/// `where`, with the parser of `Option<syn::WhereClause>`, and counts the
/// token trees left unread.  The result is `None` where the text is no token
/// stream or `syn` reports an error.
///
/// Only a plain text is read: a text that is not may hold a type such as
/// `for<'a> dyn 'b + T`, on which the type parser of `syn` stops the program.
///
/// Taken on trust: that on a plain text the call returns, and that its
/// result depends on the text alone.  What the result is, is not stated; it
/// has the name [`after_where_clause`].
#[verifier::external_body]
fn read_where_clause(text: &str) -> (rest: Option<usize>)
    requires
        plain(text@),
    ensures
        rest == after_where_clause(text@),
{
    let read = |input: ParseStream| -> syn::Result<TokenStream> {
        input.parse::<Option<syn::WhereClause>>()?;
        input.parse()
    };
    read.parse_str(text).ok().map(|rest| rest.into_iter().count())
}

/// Asks `syn::parse_str::<syn::Ident>` whether the whole of `text` is one
/// identifier: a word that is no keyword of the host language and not `_`.
///
/// Taken on trust: that the answer depends on the text alone.  What it is,
/// is not stated; it has the name [`accepts_ident`].
#[verifier::external_body]
fn read_ident(text: &str) -> (accepted: bool)
    ensures
        accepted == accepts_ident(text@),
{
    syn::parse_str::<syn::Ident>(text).is_ok()
}

/// The parts of a function item that the host grammar defines.
#[derive(Clone, Copy, Debug, PartialEq, Eq, Structural)]
pub enum Grammar {
    /// Zero or more attributes, each a `#` and a group in brackets.
    OuterAttributes,
    /// A visibility such as `pub` or `pub(crate)`; it may be empty.
    Visibility,
    /// `extern`, with or without the name of an ABI; it may be missing.
    Abi,
    /// Generic parameters in angle brackets; they may be missing.
    Generics,
    /// One parameter of a function.
    FnArg,
    /// One pattern.
    Pattern,
    /// One type.
    Type,
    /// A `where` clause; it may be missing.
    WhereClause,
}

/// Whether a part of the given grammar is read from plain texts only.
/// Attributes, a visibility and an ABI are read from any text.
pub open spec fn wants_plain(grammar: Grammar) -> bool {
    match grammar {
        Grammar::OuterAttributes => false,
        Grammar::Visibility => false,
        Grammar::Abi => false,
        _ => true,
    }
}

/// How many token trees `syn` leaves unread after a part of the given
/// grammar at the start of `text`.
pub open spec fn left_by_syn(grammar: Grammar, text: Seq<char>) -> Option<usize> {
    match grammar {
        Grammar::OuterAttributes => after_outer_attributes(text),
        Grammar::Visibility => after_visibility(text),
        Grammar::Abi => after_abi(text),
        Grammar::Generics => after_generics(text),
        Grammar::FnArg => after_fn_arg(text),
        Grammar::Pattern => after_pattern(text),
        Grammar::Type => after_type(text),
        Grammar::WhereClause => after_where_clause(text),
    }
}

/// How many token trees are left unread after a part of the given grammar at
/// the start of `text`: what `syn` leaves, or nothing where the grammar wants
/// a plain text and `text` is none, for then `syn` is not asked.
pub open spec fn remainder(grammar: Grammar, text: Seq<char>) -> Option<usize> {
    if wants_plain(grammar) && !plain(text) {
        None
    } else {
        left_by_syn(grammar, text)
    }
}

/// Where a part ends that starts at `start`, given that `rest` of the token
/// trees from `start` up to `end` follow the part.  There is no such position
/// where the count is missing, where the tokens are not whole token trees, or
/// where more trees are said to be left than there are.
pub open spec fn consumed_end(t: Seq<TokenView>, start: int, end: int, rest: Option<usize>) -> Option<
    int,
> {
    match (tree_count(t, start, end), rest) {
        (Some(n), Some(r)) => if r <= n {
            after_trees(t, start, end, (n - r) as nat)
        } else {
            None
        },
        _ => None,
    }
}

/// Where the part of the given grammar ends that starts at `start`, as `syn`
/// reads it from the tokens from `start` up to `end`.
pub open spec fn grammar_end(t: Seq<TokenView>, start: int, end: int, grammar: Grammar) -> Option<
    int,
> {
    if 0 <= start <= end <= t.len() {
        consumed_end(t, start, end, remainder(grammar, rendered(t.subrange(start, end))))
    } else {
        None
    }
}

/// Among as many whole token trees as were counted, any smaller number of
/// them can be walked.
pub proof fn lemma_counted_trees_can_be_walked(
    t: Seq<TokenView>,
    at: int,
    end: int,
    n: nat,
    m: nat,
)
    requires
        0 <= at,
        end <= t.len(),
        tree_count(t, at, end) == Some(n),
        m <= n,
    ensures
        after_trees(t, at, end, m) is Some,
    decreases m,
{
    if m > 0 {
        let next = tree_end(t, at, end)->0;
        lemma_counted_trees_can_be_walked(t, next, end, (n - 1) as nat, (m - 1) as nat);
    }
}

/// A part is found if and only if the tokens that it is looked for in are
/// whole token trees, `syn` reads the part from their text, and it leaves no
/// more trees unread than there are.
pub proof fn part_is_found_iff(t: Seq<TokenView>, start: int, end: int, grammar: Grammar)
    ensures
        grammar_end(t, start, end, grammar) is Some <==> {
            &&& 0 <= start <= end <= t.len()
            &&& tree_count(t, start, end) matches Some(n)
            &&& remainder(grammar, rendered(t.subrange(start, end))) matches Some(rest)
            &&& rest <= n
        },
{
    if 0 <= start <= end <= t.len() {
        match (tree_count(t, start, end), remainder(grammar, rendered(t.subrange(start, end)))) {
            (Some(n), Some(rest)) => {
                if rest <= n {
                    lemma_counted_trees_can_be_walked(t, start, end, n, (n - rest) as nat);
                }
            },
            _ => {},
        }
    }
}

/// A part ends at or after its start and not after `end`.
pub proof fn lemma_grammar_end_bounds(t: Seq<TokenView>, start: int, end: int, grammar: Grammar)
    ensures
        grammar_end(t, start, end, grammar) matches Some(next) ==> 0 <= start <= next <= end
            <= t.len(),
{
    if 0 <= start <= end <= t.len() {
        let text = rendered(t.subrange(start, end));
        match (tree_count(t, start, end), remainder(grammar, text)) {
            (Some(n), Some(r)) => {
                if r <= n {
                    lemma_after_trees_bounds(t, start, end, (n - r) as nat);
                }
            },
            _ => {},
        }
    }
}

/// Where the tokens from `start` on are whole token trees, so are the tokens
/// after a part that starts there.
pub proof fn lemma_grammar_end_balanced(t: Seq<TokenView>, start: int, end: int, grammar: Grammar)
    requires
        first_unbalanced(t, start, end) is None,
    ensures
        grammar_end(t, start, end, grammar) matches Some(next) ==> first_unbalanced(
            t,
            next,
            end,
        ) is None,
{
    if 0 <= start <= end <= t.len() {
        let text = rendered(t.subrange(start, end));
        match (tree_count(t, start, end), remainder(grammar, text)) {
            (Some(n), Some(r)) => {
                if r <= n {
                    lemma_balanced_after_trees(t, start, end, (n - r) as nat);
                }
            },
            _ => {},
        }
    }
}

/// The first position from `to` on, and not after `end`, up to which the
/// text of the tokens from `start` is not plain, or `end` where there is none
/// before it.
pub open spec fn first_not_plain(t: Seq<TokenView>, start: int, end: int, to: int) -> int
    decreases end - to,
{
    if to >= end {
        end
    } else if !plain(rendered(t.subrange(start, to))) {
        to
    } else {
        first_not_plain(t, start, end, to + 1)
    }
}

/// Where the tokens from `start` up to `end` are refused because their text
/// is not plain: at the first token with which the text is not plain.  In
/// `for<'a> dyn 'b + T` that is the apostrophe of `'b`.  Nothing is refused
/// where the text is plain.
pub open spec fn refused_at(t: Seq<TokenView>, start: usize, end: usize) -> Option<usize> {
    if start < end <= t.len() && !plain(rendered(t.subrange(start as int, end as int))) {
        Some((first_not_plain(t, start as int, end as int, start + 1) - 1) as usize)
    } else {
        None
    }
}

/// The failure for a text that is refused at `bad`.
pub open spec fn refusal(bad: usize) -> ParseError {
    ParseError { kind: ErrorKind::LexicalMismatch, stage: Stage::TraitObject, position: bad }
}

/// The failure to report where no part of the given grammar was read from
/// the tokens from `start` up to `end`.  Where the grammar wants a plain text
/// and the text is refused: that it is, and where.  If not, the host grammar
/// has rejected the text, and the failure is `otherwise`.
pub open spec fn unread(
    t: Seq<TokenView>,
    start: usize,
    end: usize,
    grammar: Grammar,
    otherwise: ParseError,
) -> ParseError {
    if wants_plain(grammar) {
        match refused_at(t, start, end) {
            Some(bad) => refusal(bad),
            None => otherwise,
        }
    } else {
        otherwise
    }
}

/// The text of a range of tokens whose text is plain is plain for every
/// range inside it.
pub proof fn lemma_ranges_of_plain(t: Seq<TokenView>, start: int, end: int, from: int, to: int)
    requires
        0 <= start <= from <= to <= end <= t.len(),
        plain(rendered(t.subrange(start, end))),
    ensures
        plain(rendered(t.subrange(from, to))),
{
    let before = t.subrange(start, from);
    let part = t.subrange(from, to);
    let after = t.subrange(to, end);
    assert(t.subrange(start, end) =~= before + part + after);
    lemma_rendered_joined(before, part);
    lemma_rendered_joined(before + part, after);
    lemma_part_of_plain(rendered(before), rendered(part), rendered(after));
}

/// Tokens from which a part was read that is read from plain texts only are
/// not refused.
pub proof fn lemma_read_is_not_refused(t: Seq<TokenView>, start: int, end: int, grammar: Grammar)
    requires
        wants_plain(grammar),
        0 <= start <= end <= usize::MAX,
    ensures
        grammar_end(t, start, end, grammar) is Some ==> refused_at(
            t,
            start as usize,
            end as usize,
        ) is None,
{
}

/// The position up to which a text is first not plain lies in the range of
/// the text, and the text up to any position before it is plain.
pub proof fn lemma_first_not_plain_is_first(t: Seq<TokenView>, start: int, end: int, to: int)
    requires
        to <= end,
    ensures
        to <= first_not_plain(t, start, end, to) <= end,
        first_not_plain(t, start, end, to) < end ==> !plain(
            rendered(t.subrange(start, first_not_plain(t, start, end, to))),
        ),
        forall|p: int|
            to <= p < first_not_plain(t, start, end, to) ==> plain(
                #[trigger] rendered(t.subrange(start, p)),
            ),
    decreases end - to,
{
    if to < end && plain(rendered(t.subrange(start, to))) {
        lemma_first_not_plain_is_first(t, start, end, to + 1);
    }
}

/// Whether the token at `at` is an identifier: a word that `syn` accepts as
/// one.
pub open spec fn ident_at(t: Seq<TokenView>, at: int) -> bool {
    0 <= at < t.len() && t[at].kind == TokenKind::Ident && accepts_ident(t[at].text)
}

/// Asks `syn` how much of `text` is left after a part of the given grammar.
/// Where the grammar wants a plain text and `text` is none, `syn` is not
/// asked and nothing is found.
pub fn read(grammar: Grammar, text: &str) -> (rest: Option<usize>)
    ensures
        rest == remainder(grammar, text@),
{
    match grammar {
        Grammar::OuterAttributes => read_outer_attributes(text),
        Grammar::Visibility => read_visibility(text),
        Grammar::Abi => read_abi(text),
        _ => {
            if !is_plain(text) {
                return None;
            }
            match grammar {
                Grammar::Generics => read_generics(text),
                Grammar::FnArg => read_fn_arg(text),
                Grammar::Pattern => read_pattern(text),
                Grammar::Type => read_type(text),
                _ => read_where_clause(text),
            }
        },
    }
}

/// Turns the count of what is left into the position where the part ends:
/// walks all the whole token trees from `start` but the last `rest`.
pub fn prefix_end(tokens: &Vec<Token>, start: usize, end: usize, rest: Option<usize>) -> (r: Option<
    usize,
>)
    ensures
        position(r) == consumed_end(tokens.deep_view(), start as int, end as int, rest),
        r matches Some(next) ==> start <= next <= end,
{
    match (count_trees(tokens, start, end), rest) {
        (Some(n), Some(r)) => {
            if r <= n {
                skip_trees(tokens, start, end, n - r)
            } else {
                None
            }
        },
        _ => None,
    }
}

/// Finds where the part of the given grammar ends that starts at `start`.
pub fn find_end(tokens: &Vec<Token>, start: usize, end: usize, grammar: Grammar) -> (r: Option<
    usize,
>)
    ensures
        position(r) == grammar_end(tokens.deep_view(), start as int, end as int, grammar),
        r matches Some(next) ==> start <= next <= end <= tokens.len(),
{
    if !(start <= end && end <= tokens.len()) {
        return None;
    }
    let text = render_range(tokens, start, end);
    let rest = read(grammar, text.as_str());
    prefix_end(tokens, start, end, rest)
}

/// Finds where the tokens from `start` up to `end` are refused because their
/// text is not plain, if they are.
pub fn find_refused(tokens: &Vec<Token>, start: usize, end: usize) -> (r: Option<usize>)
    ensures
        r == refused_at(tokens.deep_view(), start, end),
        r matches Some(bad) ==> start <= bad < end,
{
    if !(start < end && end <= tokens.len()) {
        return None;
    }
    let ghost t = tokens.deep_view();
    let whole = render_range(tokens, start, end);
    if is_plain(whole.as_str()) {
        return None;
    }
    let mut to: usize = start + 1;
    while to < end
        invariant
            start < to <= end <= tokens.len(),
            t == tokens.deep_view(),
            !plain(rendered(t.subrange(start as int, end as int))),
            first_not_plain(t, start as int, end as int, to as int) == first_not_plain(
                t,
                start as int,
                end as int,
                start + 1,
            ),
        decreases end - to,
    {
        let text = render_range(tokens, start, to);
        if !is_plain(text.as_str()) {
            return Some(to - 1);
        }
        assert(first_not_plain(t, start as int, end as int, to as int) == first_not_plain(
            t,
            start as int,
            end as int,
            to + 1,
        ));
        to = to + 1;
    }
    Some(end - 1)
}

/// Says why no part of the given grammar was read from the tokens from
/// `start` up to `end`.
pub fn explain(
    tokens: &Vec<Token>,
    start: usize,
    end: usize,
    grammar: Grammar,
    otherwise: ParseError,
) -> (r: ParseError)
    ensures
        r == unread(tokens.deep_view(), start, end, grammar, otherwise),
{
    match grammar {
        Grammar::OuterAttributes => otherwise,
        Grammar::Visibility => otherwise,
        Grammar::Abi => otherwise,
        _ => match find_refused(tokens, start, end) {
            Some(bad) => ParseError::new(ErrorKind::LexicalMismatch, Stage::TraitObject, bad),
            None => otherwise,
        },
    }
}

/// Whether the token at `at` is an identifier.
pub fn is_ident_at(tokens: &Vec<Token>, at: usize) -> (r: bool)
    ensures
        r == ident_at(tokens.deep_view(), at as int),
{
    if at >= tokens.len() {
        return false;
    }
    match tokens[at].kind {
        TokenKind::Ident => read_ident(tokens[at].text.as_str()),
        _ => false,
    }
}

} // verus!
