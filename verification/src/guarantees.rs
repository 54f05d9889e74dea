//! What holds of every function item that is rewritten.
//!
//! Each statement here is about [`rewritten`], which is what
//! [`named_return`](crate::named_return) returns, and about
//! [`item_at`], which is what [`ItemFn::parse`](crate::item_fn::ItemFn::parse)
//! returns.  The sequences of tokens are those of a vector, so they are never
//! longer than a vector can be.

use crate::emit::{
    emitted, lemma_well_formed_within, prefix_tokens, return_tokens, tuple_declaration,
    tuple_elems,
};
use crate::error::{ErrorKind, ParseError, Stage};
use crate::fn_arg_ret::{captured_at, colon_after, ArgCaptured, FnArgRet};
use crate::fn_decl::parameters_at;
use crate::item_fn::{
    attributes_at, head_at, item_at, lemma_item_at_well_formed, lemma_signature_not_refused,
    lemma_staged_bounds, signature_end, ItemFnView,
};
use crate::named::{
    capture_list, commas_follow, item_start, items_fill, lemma_capture_list_commas,
    lemma_item_ends, lemma_item_starts, linked,
};
use crate::return_type::{bound_of, types_of, SimpleReturnView};
use crate::plain::plain;
use crate::rewritten;
use crate::syntax::{
    grammar_end, left_by_syn, lemma_grammar_end_bounds, lemma_first_not_plain_is_first,
    lemma_ranges_of_plain, refused_at, remainder, Grammar,
};
use crate::token::{
    index, lemma_close_from_bounds, matching_close, rendered, Delimiter, TokenView,
};
use vstd::prelude::*;

verus! {

/// The positions at which an item is cut when it is rewritten: where the
/// return clause starts, where it ends, and where the body opens.
pub open spec fn cuts(item: ItemFnView) -> (int, int, int) {
    (
        item.decl.paren_token.end as int,
        item.decl.generics.where_clause.start as int,
        item.block.start as int,
    )
}

/// The cuts of a well-formed item are in order and within the tokens.
pub proof fn lemma_cuts_in_order(t: Seq<TokenView>, item: ItemFnView)
    requires
        item.well_formed(t.len() as int),
    ensures
        0 <= cuts(item).0 <= cuts(item).1 <= cuts(item).2 < t.len(),
{
    lemma_well_formed_within(item.decl.output, cuts(item).0, cuts(item).1, t.len() as int);
}

/// A well-formed item without a named capture, whose return clause is
/// missing or an ordinary type, is written as it stands.
pub proof fn lemma_ordinary_kept(t: Seq<TokenView>, item: ItemFnView)
    requires
        item.well_formed(t.len() as int),
        item.decl.output is Default || item.decl.output is Type,
    ensures
        prefix_tokens(t, item.decl.output.captures()) == Seq::<TokenView>::empty(),
        item.decl.output is Default ==> return_tokens(t, item.decl.output.simple())
            == Seq::<TokenView>::empty(),
        emitted(t, item) == t,
{
    lemma_cuts_in_order(t, item);
    assert(bound_of(item.decl.output.items()) =~= Seq::<ArgCaptured>::empty());
    assert(emitted(t, item) =~= t);
}

/// A function item without a return clause is rewritten into itself: the
/// ordinary item has no return type and its body gets no declaration.
pub proof fn no_return_clause(t: Seq<TokenView>, item: ItemFnView)
    requires
        t.len() <= usize::MAX,
        item_at(t) == Ok::<ItemFnView, ParseError>(item),
        item.decl.output is Default,
    ensures
        return_tokens(t, item.decl.output.simple()) == Seq::<TokenView>::empty(),
        prefix_tokens(t, item.decl.output.captures()) == Seq::<TokenView>::empty(),
        rewritten(t) == Ok::<Seq<TokenView>, ParseError>(t),
{
    lemma_item_at_well_formed(t);
    lemma_ordinary_kept(t, item);
}

/// A well-formed item whose return clause is an empty capture list is
/// written without the clause.
pub proof fn lemma_empty_list_dropped(t: Seq<TokenView>, item: ItemFnView)
    requires
        item.well_formed(t.len() as int),
        item.decl.output is Named,
        item.decl.output.items().len() == 0,
    ensures
        item.decl.output.simple() is Default,
        prefix_tokens(t, item.decl.output.captures()) == Seq::<TokenView>::empty(),
        emitted(t, item) == t.subrange(0, cuts(item).0) + t.subrange(
            cuts(item).1,
            t.len() as int,
        ),
{
    lemma_cuts_in_order(t, item);
    assert(bound_of(item.decl.output.items()) =~= Seq::<ArgCaptured>::empty());
    assert(emitted(t, item) =~= t.subrange(0, cuts(item).0) + t.subrange(
        cuts(item).1,
        t.len() as int,
    ));
}

/// A function item whose return clause is the empty capture list `()` gets
/// no return type and no declaration: the clause is left out and nothing else
/// changes.
pub proof fn empty_capture_list(t: Seq<TokenView>, item: ItemFnView)
    requires
        t.len() <= usize::MAX,
        item_at(t) == Ok::<ItemFnView, ParseError>(item),
        item.decl.output is Named,
        item.decl.output.items().len() == 0,
    ensures
        item.decl.output.simple() is Default,
        prefix_tokens(t, item.decl.output.captures()) == Seq::<TokenView>::empty(),
        rewritten(t) == Ok::<Seq<TokenView>, ParseError>(
            t.subrange(0, cuts(item).0) + t.subrange(cuts(item).1, t.len() as int),
        ),
{
    lemma_item_at_well_formed(t);
    lemma_empty_list_dropped(t, item);
}

/// What a function item with one named capture and nothing else in its
/// capture list is rewritten into: the item up to and with the arrow, the
/// type of the capture, the item from the end of the return clause to the
/// opening brace, the declaration of the capture, and the rest of the body.
pub open spec fn with_one_capture(t: Seq<TokenView>, item: ItemFnView, captured: ArgCaptured) -> Seq<
    TokenView,
> {
    t.subrange(0, cuts(item).0 + 2) + captured.ty.of(t) + t.subrange(
        cuts(item).1,
        cuts(item).2 + 1,
    ) + seq![TokenView::word("let"@)] + captured.pat.of(t) + seq![TokenView::mark(":"@)]
        + captured.ty.of(t) + seq![TokenView::mark(";"@)] + t.subrange(
        cuts(item).2 + 1,
        t.len() as int,
    )
}

/// A well-formed item whose capture list is one named capture returns the
/// type of the capture and declares the capture alone.
pub proof fn lemma_one_capture_declared(t: Seq<TokenView>, item: ItemFnView, captured: ArgCaptured)
    requires
        item.well_formed(t.len() as int),
        item.decl.output is Named,
        item.decl.output.items() == seq![FnArgRet::Captured(captured)],
    ensures
        item.decl.output.simple() == (SimpleReturnView::Single {
            arrow: item.decl.paren_token.end,
            ty: captured.ty,
        }),
        item.decl.output.captures() == Some(seq![captured]),
        emitted(t, item) == with_one_capture(t, item, captured),
{
    lemma_cuts_in_order(t, item);
    let items = item.decl.output.items();
    assert(items.drop_last() =~= Seq::<FnArgRet>::empty());
    assert(bound_of(items.drop_last()) =~= Seq::<ArgCaptured>::empty());
    assert(bound_of(items) =~= seq![captured]);
    assert(emitted(t, item) =~= with_one_capture(t, item, captured));
}

/// A function item whose capture list is one named capture `(n: T)` returns
/// `T` alone, not a tuple, and its body starts with `let n : T ;`.
pub proof fn one_named_capture(t: Seq<TokenView>, item: ItemFnView, captured: ArgCaptured)
    requires
        t.len() <= usize::MAX,
        item_at(t) == Ok::<ItemFnView, ParseError>(item),
        item.decl.output is Named,
        item.decl.output.items() == seq![FnArgRet::Captured(captured)],
    ensures
        item.decl.output.simple() == (SimpleReturnView::Single {
            arrow: item.decl.paren_token.end,
            ty: captured.ty,
        }),
        item.decl.output.captures() == Some(seq![captured]),
        rewritten(t) == Ok::<Seq<TokenView>, ParseError>(with_one_capture(t, item, captured)),
{
    lemma_item_at_well_formed(t);
    lemma_one_capture_declared(t, item, captured);
}

/// The captures of a list in which every item is a named capture.
pub open spec fn all_captured(items: Seq<FnArgRet>) -> Seq<ArgCaptured> {
    Seq::new(items.len(), |k: int| items[k]->Captured_0)
}

/// Where every item is a named capture, the captures to declare are the
/// items, in their order.
pub proof fn lemma_bound_of_all_captured(items: Seq<FnArgRet>)
    requires
        forall|k: int| 0 <= k < items.len() ==> #[trigger] items[k] is Captured,
    ensures
        bound_of(items) == all_captured(items),
    decreases items.len(),
{
    if items.len() == 0 {
        assert(bound_of(items) =~= all_captured(items));
    } else {
        let front = items.drop_last();
        assert forall|k: int| 0 <= k < front.len() implies #[trigger] front[k] is Captured by {
            assert(front[k] == items[k]);
        }
        lemma_bound_of_all_captured(front);
        assert(items[items.len() - 1] is Captured);
        assert(bound_of(items) =~= all_captured(items));
    }
}

/// A function item whose capture list is two or more named captures returns
/// the tuple of their types in their order, and its body starts with one
/// statement that declares the tuple of their patterns, in the same order,
/// with the tuple of their types.
pub proof fn many_named_captures(t: Seq<TokenView>, item: ItemFnView)
    requires
        t.len() <= usize::MAX,
        item_at(t) == Ok::<ItemFnView, ParseError>(item),
        item.decl.output is Named,
        item.decl.output.items().len() >= 2,
        forall|k: int|
            0 <= k < item.decl.output.items().len() ==> #[trigger] item.decl.output.items()[k] is Captured,
    ensures
        item.decl.output.simple() matches SimpleReturnView::Tuple { elems, .. } && elems
            == types_of(item.decl.output.items()),
        item.decl.output.captures() == Some(all_captured(item.decl.output.items())),
        rewritten(t) == Ok::<Seq<TokenView>, ParseError>(
            t.subrange(0, cuts(item).0) + return_tokens(t, item.decl.output.simple())
                + t.subrange(cuts(item).1, cuts(item).2 + 1) + tuple_declaration(
                t,
                all_captured(item.decl.output.items()),
            ) + t.subrange(cuts(item).2 + 1, t.len() as int),
        ),
{
    lemma_bound_of_all_captured(item.decl.output.items());
}

/// In the capture list of a function item, a comma stands after every item
/// that is not the last token before the closing parenthesis.  So the types
/// that make up the return type of the ordinary item, each written with the
/// token after it, are the elements of a tuple type.
pub proof fn items_are_separated_by_commas(t: Seq<TokenView>, item: ItemFnView)
    requires
        t.len() <= usize::MAX,
        item_at(t) == Ok::<ItemFnView, ParseError>(item),
        item.decl.output is Named,
    ensures
        commas_follow(t, item.decl.output.items(), item.decl.output->Named_1.paren_token.end - 1),
{
    let end = signature_end(t);
    let (_, attrs_end) = attributes_at(t, end)->Ok_0;
    let head = head_at(t, attrs_end, end)->Ok_0;
    let parameters = parameters_at(t, head.generics.end, end)->Ok_0;
    let at = parameters.paren_token.end;
    let open = (at + 2) as usize;
    lemma_close_from_bounds(t, open + 1, end as int, seq![Delimiter::Parenthesis]);
    let close = index(matching_close(t, open as int, end as int))->0;
    lemma_capture_list_commas(t, (open + 1) as usize, close);
}

/// Where no item of a list is a named capture, there is nothing to declare.
pub proof fn lemma_bound_of_none_captured(items: Seq<FnArgRet>)
    requires
        forall|k: int| 0 <= k < items.len() ==> #[trigger] items[k] is Ignored,
    ensures
        bound_of(items) == Seq::<ArgCaptured>::empty(),
    decreases items.len(),
{
    if items.len() > 0 {
        let front = items.drop_last();
        assert forall|k: int| 0 <= k < front.len() implies #[trigger] front[k] is Ignored by {
            assert(front[k] == items[k]);
        }
        lemma_bound_of_none_captured(front);
        assert(items[items.len() - 1] is Ignored);
    }
}

/// Where no item of a list is a named capture, the elements of the tuple
/// from the `k`th on are the tokens of the list from the `k`th item on.
pub proof fn lemma_tuple_elems_of_types(
    t: Seq<TokenView>,
    items: Seq<FnArgRet>,
    from: int,
    close: int,
    k: int,
)
    requires
        items_fill(items, from, close),
        0 <= from,
        close <= t.len(),
        0 <= k < items.len(),
        forall|j: int| 0 <= j < items.len() ==> #[trigger] items[j] is Ignored,
    ensures
        tuple_elems(t, types_of(items), k, close) == t.subrange(item_start(items[k]), close),
    decreases items.len() - k,
{
    let elems = types_of(items);
    lemma_item_starts(items, from, close, k);
    lemma_item_ends(items, from, close, k);
    assert(items[k] is Ignored);
    if k + 1 < items.len() {
        lemma_tuple_elems_of_types(t, items, from, close, k + 1);
        lemma_item_starts(items, from, close, k + 1);
        lemma_item_ends(items, from, close, k + 1);
        assert(linked(items, from, k + 1));
        assert(items[k + 1] is Ignored);
        assert(t.subrange(elems[k].start as int, elems[k].end + 1) + t.subrange(
            item_start(items[k + 1]),
            close,
        ) =~= t.subrange(item_start(items[k]), close));
    }
}

/// A well-formed return clause that is a list of two or more types is
/// written as it stands, and nothing is declared for it.
pub proof fn lemma_tuple_of_types_kept(t: Seq<TokenView>, item: ItemFnView)
    requires
        item.well_formed(t.len() as int),
        item.decl.output is Named,
        item.decl.output.items().len() >= 2,
        forall|k: int|
            0 <= k < item.decl.output.items().len() ==> #[trigger] item.decl.output.items()[k] is Ignored,
    ensures
        return_tokens(t, item.decl.output.simple()) == t.subrange(cuts(item).0, cuts(item).1),
        prefix_tokens(t, item.decl.output.captures()) == Seq::<TokenView>::empty(),
        emitted(t, item) == t,
{
    let items = item.decl.output.items();
    let named = item.decl.output->Named_1;
    let open = named.paren_token.start as int;
    let close = named.paren_token.end - 1;
    lemma_cuts_in_order(t, item);
    lemma_bound_of_none_captured(items);
    lemma_tuple_elems_of_types(t, items, open + 1, close, 0);
    assert(linked(items, open + 1, 0));
    assert(tuple_elems(t, types_of(items), 0, close) == t.subrange(open + 1, close));
    assert(return_tokens(t, item.decl.output.simple()) =~= t.subrange(
        cuts(item).0,
        cuts(item).1,
    ));
    assert(emitted(t, item) =~= t);
}

/// A function item whose capture list holds two or more types and no named
/// capture is rewritten into itself: the return clause of the ordinary item
/// is the clause as it was written, an ordinary tuple type, and the body gets
/// no declaration.
pub proof fn tuple_of_types(t: Seq<TokenView>, item: ItemFnView)
    requires
        t.len() <= usize::MAX,
        item_at(t) == Ok::<ItemFnView, ParseError>(item),
        item.decl.output is Named,
        item.decl.output.items().len() >= 2,
        forall|k: int|
            0 <= k < item.decl.output.items().len() ==> #[trigger] item.decl.output.items()[k] is Ignored,
    ensures
        return_tokens(t, item.decl.output.simple()) == t.subrange(cuts(item).0, cuts(item).1),
        prefix_tokens(t, item.decl.output.captures()) == Seq::<TokenView>::empty(),
        rewritten(t) == Ok::<Seq<TokenView>, ParseError>(t),
{
    lemma_item_at_well_formed(t);
    lemma_tuple_of_types_kept(t, item);
}

/// Where an item of a list is a named capture, there is something to
/// declare.
pub proof fn lemma_bound_of_some_captured(items: Seq<FnArgRet>, k: int)
    requires
        0 <= k < items.len(),
        items[k] is Captured,
    ensures
        bound_of(items).len() > 0,
    decreases items.len(),
{
    if k < items.len() - 1 {
        let front = items.drop_last();
        assert(front[k] == items[k]);
        lemma_bound_of_some_captured(front, k);
    }
}

/// The body gets a declaration if and only if the return clause holds a
/// named capture.  A clause without one, be it missing, an ordinary type or a
/// list of types, gets no declaration at all.
pub proof fn declaration_iff_named_capture(t: Seq<TokenView>, item: ItemFnView)
    ensures
        prefix_tokens(t, item.decl.output.captures()).len() > 0 <==> exists|k: int|
            0 <= k < item.decl.output.items().len() && #[trigger] item.decl.output.items()[k] is Captured,
        item.decl.output.captures() is None <==> forall|k: int|
            0 <= k < item.decl.output.items().len() ==> #[trigger] item.decl.output.items()[k] is Ignored,
{
    let items = item.decl.output.items();
    if exists|k: int| 0 <= k < items.len() && #[trigger] items[k] is Captured {
        let k = choose|k: int| 0 <= k < items.len() && #[trigger] items[k] is Captured;
        lemma_bound_of_some_captured(items, k);
    } else {
        assert forall|k: int| 0 <= k < items.len() implies #[trigger] items[k] is Ignored by {
            assert(!(items[k] is Captured));
        }
        lemma_bound_of_none_captured(items);
    }
}

/// The return type of the ordinary item goes by the number of items in the
/// capture list: none for no item; the type of the item, and no tuple, for
/// one; for two or more, the tuple of as many types, each the type of the item
/// at the same place.
pub proof fn return_type_goes_by_the_number_of_items(item: ItemFnView)
    requires
        item.decl.output is Named,
    ensures
        item.decl.output.items().len() == 0 ==> item.decl.output.simple() is Default,
        item.decl.output.items().len() == 1 ==> (item.decl.output.simple() matches SimpleReturnView::Single {
            ty,
            ..
        } && ty == item.decl.output.items()[0].ty()),
        item.decl.output.items().len() >= 2 ==> (item.decl.output.simple() matches SimpleReturnView::Tuple {
            elems,
            ..
        } && elems.len() == item.decl.output.items().len() && forall|k: int|
            0 <= k < elems.len() ==> #[trigger] elems[k] == item.decl.output.items()[k].ty()),
{
}

/// In a capture list that holds no colon, no item is a named capture: every
/// item is a type.
pub proof fn no_colon_no_capture(t: Seq<TokenView>, at: usize, close: usize)
    requires
        forall|j: int| at <= j < close ==> !(#[trigger] t[j]).is_punct(":"@),
    ensures
        capture_list(t, at, close) matches Ok(items) ==> forall|k: int|
            0 <= k < items.len() ==> #[trigger] items[k] is Ignored,
    decreases close - at,
{
    if at < close {
        lemma_grammar_end_bounds(t, at as int, close as int, Grammar::Pattern);
        let pat_end = index(grammar_end(t, at as int, close as int, Grammar::Pattern));
        assert(!colon_after(t, pat_end, close)) by {
            if pat_end is Some {
                let p = pat_end->0;
                if p < close {
                    assert(!t[p as int].is_punct(":"@));
                }
            }
        }
        assert(captured_at(t, at, close) is None);
        match FnArgRet::item_at(t, at, close) {
            Ok((item, next)) => {
                if at < next < close && t[next as int].is_punct(","@) {
                    no_colon_no_capture(t, (next + 1) as usize, close);
                }
            },
            Err(_) => {},
        }
    }
}

/// An ordinary function item is rewritten into itself: where the return
/// clause is missing or is an ordinary type, the result is the item, token by
/// token.  So rewriting what was rewritten before changes nothing, as long as
/// its return clause reads as an ordinary type or is missing.
pub proof fn ordinary_item_is_kept(t: Seq<TokenView>, item: ItemFnView)
    requires
        t.len() <= usize::MAX,
        item_at(t) == Ok::<ItemFnView, ParseError>(item),
        item.decl.output is Default || item.decl.output is Type,
    ensures
        rewritten(t) == Ok::<Seq<TokenView>, ParseError>(t),
{
    lemma_item_at_well_formed(t);
    lemma_ordinary_kept(t, item);
}

/// Rewriting what was rewritten before changes nothing, as long as the
/// ordinary item reads again as an item whose return clause is missing, is
/// an ordinary type, or is a list of two or more types.  How the ordinary
/// item reads is for the host grammar to say; where it is read as a list of
/// no type or of one, as after `fn f() -> (a: ()) { a }`, the second rewriting
/// leaves the clause out or takes the type out of its parentheses.
pub proof fn rewriting_again_changes_nothing(
    t: Seq<TokenView>,
    out: Seq<TokenView>,
    again: ItemFnView,
)
    requires
        out.len() <= usize::MAX,
        rewritten(t) == Ok::<Seq<TokenView>, ParseError>(out),
        item_at(out) == Ok::<ItemFnView, ParseError>(again),
        again.decl.output is Default || again.decl.output is Type || (again.decl.output is Named
            && again.decl.output.items().len() >= 2 && forall|k: int|
            0 <= k < again.decl.output.items().len() ==> #[trigger] again.decl.output.items()[k] is Ignored),
    ensures
        rewritten(out) == Ok::<Seq<TokenView>, ParseError>(out),
{
    if again.decl.output is Named {
        tuple_of_types(out, again);
    } else {
        ordinary_item_is_kept(out, again);
    }
}

/// Whether `out` is made of the tokens of `t` before the return clause, a
/// return clause, the tokens of `t` from the end of its return clause to the
/// opening brace of the body, a declaration, and the rest of the body.
pub open spec fn keeps_other_tokens(t: Seq<TokenView>, item: ItemFnView, out: Seq<TokenView>) -> bool {
    let (clause_start, clause_end, body) = cuts(item);
    let clause = return_tokens(t, item.decl.output.simple());
    let declaration = prefix_tokens(t, item.decl.output.captures());
    let middle = clause_start + clause.len();
    let opened = middle + (body + 1 - clause_end);
    &&& 0 <= clause_start <= clause_end <= body < t.len()
    &&& out.len() == opened + declaration.len() + (t.len() - body - 1)
    &&& out.subrange(0, clause_start) == t.subrange(0, clause_start)
    &&& out.subrange(clause_start, middle) == clause
    &&& out.subrange(middle, opened) == t.subrange(clause_end, body + 1)
    &&& out.subrange(opened, opened + declaration.len()) == declaration
    &&& out.subrange(opened + declaration.len(), out.len() as int) == t.subrange(
        body + 1,
        t.len() as int,
    )
}

/// What a well-formed item is written as keeps the tokens outside the return
/// clause.
pub proof fn lemma_other_tokens_kept(t: Seq<TokenView>, item: ItemFnView)
    requires
        item.well_formed(t.len() as int),
    ensures
        keeps_other_tokens(t, item, emitted(t, item)),
{
    lemma_cuts_in_order(t, item);
    let out = emitted(t, item);
    let (clause_start, clause_end, body) = cuts(item);
    let clause = return_tokens(t, item.decl.output.simple());
    let declaration = prefix_tokens(t, item.decl.output.captures());
    let middle = clause_start + clause.len();
    let opened = middle + (body + 1 - clause_end);
    assert(out.subrange(0, clause_start) =~= t.subrange(0, clause_start));
    assert(out.subrange(clause_start, middle) =~= clause);
    assert(out.subrange(middle, opened) =~= t.subrange(clause_end, body + 1));
    assert(out.subrange(opened, opened + declaration.len()) =~= declaration);
    assert(out.subrange(opened + declaration.len(), out.len() as int) =~= t.subrange(
        body + 1,
        t.len() as int,
    ));
}

/// Every token outside the return clause is handed on as it is and in its
/// order: the ordinary item starts with the tokens before the return clause;
/// after its own return clause come the tokens from the end of the clause to
/// the opening brace of the body; and it ends with the rest of the body.
/// Between the two last parts stands the declaration and nothing else.
pub proof fn other_tokens_are_kept(t: Seq<TokenView>, item: ItemFnView)
    requires
        t.len() <= usize::MAX,
        item_at(t) == Ok::<ItemFnView, ParseError>(item),
    ensures
        rewritten(t) matches Ok(out) && keeps_other_tokens(t, item, out),
{
    lemma_item_at_well_formed(t);
    lemma_other_tokens_kept(t, item);
}

/// A text is refused if and only if it is not plain, and then at the first
/// of its tokens with which it is not plain: up to that token and with it
/// the text is not plain, and up to any token before it, it is.
pub proof fn refused_at_the_first_token(t: Seq<TokenView>, start: usize, end: usize)
    requires
        start < end <= t.len(),
    ensures
        refused_at(t, start, end) is Some <==> !plain(
            rendered(t.subrange(start as int, end as int)),
        ),
        refused_at(t, start, end) matches Some(bad) ==> {
            &&& start <= bad < end
            &&& !plain(rendered(t.subrange(start as int, bad + 1)))
            &&& forall|p: int|
                start < p <= bad ==> plain(#[trigger] rendered(t.subrange(start as int, p)))
        },
{
    lemma_first_not_plain_is_first(t, start as int, end as int, start + 1);
}

/// Where the tokens from `start` up to `end` are not refused for their text,
/// every part of them is read as `syn` reads it, whatever the grammar: no
/// text in them is kept from `syn`.
pub proof fn what_is_not_refused_is_read(
    t: Seq<TokenView>,
    start: usize,
    end: usize,
    from: int,
    to: int,
    grammar: Grammar,
)
    requires
        start <= from <= to <= end <= t.len(),
        refused_at(t, start, end) is None,
    ensures
        remainder(grammar, rendered(t.subrange(from, to))) == left_by_syn(
            grammar,
            rendered(t.subrange(from, to)),
        ),
{
    if start < end {
        lemma_ranges_of_plain(t, start as int, end as int, from, to);
    } else {
        assert(t.subrange(from, to) =~= Seq::<TokenView>::empty());
        assert(rendered(t.subrange(from, to)) =~= Seq::<char>::empty());
    }
}

/// In a function item that reads, every part from the generic parameters to
/// the body is read as `syn` reads it: an item is never taken for malformed
/// because a part of it was kept from `syn`.  An item that holds such a part
/// is refused as a whole.
pub proof fn parts_of_an_item_are_read(
    t: Seq<TokenView>,
    item: ItemFnView,
    from: int,
    to: int,
    grammar: Grammar,
)
    requires
        t.len() <= usize::MAX,
        item_at(t) == Ok::<ItemFnView, ParseError>(item),
        item.decl.generics.params.start <= from <= to <= item.block.start,
    ensures
        remainder(grammar, rendered(t.subrange(from, to))) == left_by_syn(
            grammar,
            rendered(t.subrange(from, to)),
        ),
{
    let end = signature_end(t);
    lemma_item_at_well_formed(t);
    lemma_signature_not_refused(t, end);
    lemma_staged_bounds(
        t,
        item.decl.generics.where_clause.start,
        end,
        Grammar::WhereClause,
        ErrorKind::GenericsOrWhereClauseMalformed,
        Stage::WhereClause,
    );
    what_is_not_refused_is_read(
        t,
        item.decl.generics.params.start,
        signature_end(t),
        from,
        to,
        grammar,
    );
}

/// The parts of a well-formed item stand in their order: the visibility,
/// the keyword `fn`, the name, the generic parameters, the parameters, the
/// return clause, the `where` clause and the body, which ends the item.
pub proof fn parts_stand_in_order(item: ItemFnView, len: int)
    requires
        item.well_formed(len),
    ensures
        item.vis.start <= item.vis.end <= item.decl.fn_token < item.ident,
        item.ident < item.decl.generics.params.start <= item.decl.generics.params.end,
        item.decl.generics.params.end <= item.decl.paren_token.start < item.decl.paren_token.end,
        item.decl.paren_token.end <= item.decl.generics.where_clause.start,
        item.decl.generics.where_clause.start <= item.decl.generics.where_clause.end,
        item.decl.generics.where_clause.end == item.block.start < item.block.end == len,
{
}

} // verus!
