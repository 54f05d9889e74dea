//! Named return values for function items.
//!
//! A function item may name the values that it returns, in its signature:
//!
//! ```text
//! fn f() -> (a: A, b: B) { a = A; b = B; (a, b) }
//! ```
//!
//! [`named_return`] rewrites such an item into an ordinary one.  The return
//! clause becomes the type of what is returned, and the body starts with a
//! statement that declares the names and leaves them without a value:
//!
//! ```text
//! fn f() -> (A, B) { let (a, b): (A, B); a = A; b = B; (a, b) }
//! ```
//!
//! The item is a sequence of [`token::Token`]s and so is the result.  Every
//! other token of the item is handed on as it is.  Whether the body gives
//! every name a value, and whether what it returns has the declared type, is
//! not looked at: the compiler of the ordinary item finds that out.
//!
//! One kind of signature is refused.  On a trait object that comes after
//! bound lifetimes and starts with a lifetime, as in `for<'a> dyn 'b + T`,
//! the host grammar stops the program.  A signature whose text may be read so
//! after the name of the function is not handed to it (see [`plain`]), and
//! the item is refused at the lifetime with which the trait object starts.
//! Every other signature is read by the host grammar, and the body may hold
//! anything.
//!
//! The modules, from the ground up:
//!
//! - [`token`]: tokens, ranges of tokens, and the nesting of brackets;
//! - [`plain`]: which texts are handed to the host grammar;
//! - [`syntax`]: the parts of an item that the host grammar defines, and what
//!   is asked of `syn` to read them;
//! - [`fn_arg_ret`], [`named`], [`return_type`], [`fn_decl`], [`item_fn`]:
//!   the grammar of a function item, from a capture item to the whole item;
//! - [`emit`]: what an item is turned into, and how that is written;
//! - [`sources`]: which token of the item a token of the ordinary item is a
//!   copy of;
//! - [`guarantees`], [`nesting`], [`opaque_body`]: what is proved of every
//!   item that is read and rewritten.

use vstd::prelude::*;

pub mod plain;
pub mod emit;
pub mod error;
pub mod fn_arg_ret;
pub mod fn_decl;
pub mod guarantees;
pub mod item_fn;
pub mod named;
pub mod nesting;
pub mod opaque_body;
pub mod return_type;
pub mod sources;
pub mod syntax;
pub mod token;

verus! {

/// What becomes of the tokens `t`: the ordinary function item, where `t` is a
/// function item, and the failure to read one, where it is not.
pub open spec fn rewritten(t: Seq<token::TokenView>) -> Result<
    Seq<token::TokenView>,
    error::ParseError,
> {
    match item_fn::item_at(t) {
        Ok(item) => Ok(emit::emitted(t, item)),
        Err(e) => Err(e),
    }
}

/// Rewrites a function item whose return values may be named into an
/// ordinary function item.
pub fn named_return(item: Vec<token::Token>) -> (r: Result<Vec<token::Token>, error::ParseError>)
    ensures
        match r {
            Ok(out) => rewritten(item.deep_view()) == Ok::<
                Seq<token::TokenView>,
                error::ParseError,
            >(out.deep_view()),
            Err(e) => rewritten(item.deep_view()) == Err::<
                Seq<token::TokenView>,
                error::ParseError,
            >(e),
        },
{
    match item_fn::ItemFn::parse(&item) {
        Ok(parsed) => Ok(parsed.to_tokens(&item)),
        Err(e) => Err(e),
    }
}

/// Rewrites a function item as [`named_return`] does, and says of every
/// token of the ordinary item which token of the item it is a copy of, if of
/// any.  A token with a source is the token at that position, as it was
/// handed in.
pub fn named_return_with_sources(item: Vec<token::Token>) -> (r: Result<
    (Vec<token::Token>, Vec<Option<usize>>),
    error::ParseError,
>)
    ensures
        match r {
            Ok((out, from)) => {
                &&& rewritten(item.deep_view()) == Ok::<Seq<token::TokenView>, error::ParseError>(
                    out.deep_view(),
                )
                &&& item_fn::item_at(item.deep_view()) matches Ok(parsed) && from@
                    == sources::sources(item.len() as int, parsed)
                &&& sources::agrees(item.deep_view(), out.deep_view(), from@)
            },
            Err(e) => rewritten(item.deep_view()) == Err::<
                Seq<token::TokenView>,
                error::ParseError,
            >(e),
        },
{
    match item_fn::ItemFn::parse(&item) {
        Ok(parsed) => {
            let out = parsed.to_tokens(&item);
            let from = parsed.sources(item.len());
            proof {
                sources::sources_name_the_copies(item.deep_view(), parsed@);
            }
            Ok((out, from))
        },
        Err(e) => Err(e),
    }
}

/// Rewrites the function item that an attribute is put on.  The tokens of
/// the attribute are not read.
///
/// A compiler reads the signature of a function before it runs the
/// attributes on it, and it rejects a capture list there.  So this serves
/// only where the item reaches the library before any compiler has read it.
pub fn named_return_attr(_attr: Vec<token::Token>, item: Vec<token::Token>) -> (r: Result<
    Vec<token::Token>,
    error::ParseError,
>)
    ensures
        match r {
            Ok(out) => rewritten(item.deep_view()) == Ok::<
                Seq<token::TokenView>,
                error::ParseError,
            >(out.deep_view()),
            Err(e) => rewritten(item.deep_view()) == Err::<
                Seq<token::TokenView>,
                error::ParseError,
            >(e),
        },
{
    named_return(item)
}

} // verus!
