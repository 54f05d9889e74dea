//! How reading a function item fails.

use vstd::prelude::*;
use vstd::string::*;

verus! {

/// What went wrong.
#[derive(Clone, Copy, Debug, PartialEq, Eq, Structural)]
pub enum ErrorKind {
    /// A token or a bracket that the grammar expects is not there.
    LexicalMismatch,
    /// An item of a capture list is neither `pattern : type` nor a type.
    CaptureItemMalformed,
    /// The generic parameters or the `where` clause cannot be read.
    GenericsOrWhereClauseMalformed,
    /// A bracket has no partner, so that the body cannot be delimited.
    BodyDelimiterUnbalanced,
}

/// The part of the function item that was being read.
#[derive(Clone, Copy, Debug, PartialEq, Eq, Structural)]
pub enum Stage {
    /// The nesting of the brackets, which is looked at before anything is
    /// read.
    Nesting,
    /// The attributes before the item.
    Attributes,
    /// The visibility.
    Visibility,
    /// The ABI: `extern`, with or without a name.
    Abi,
    /// The keyword `fn`.
    FnKeyword,
    /// The name of the function.
    Ident,
    /// A trait object that comes after bound lifetimes and whose first bound
    /// is a lifetime, as in `for<'a> dyn 'b + T`, or what may be read as one.
    /// No part is looked for in a text that holds one, and the failure is at
    /// the lifetime with which the trait object starts.
    TraitObject,
    /// The generic parameters.
    Generics,
    /// The parenthesised parameters.
    Parameters,
    /// The ordinary type after the arrow.
    ReturnType,
    /// The capture list after the arrow: its parentheses and its commas.
    CaptureList,
    /// One item of the capture list.
    CaptureItem,
    /// The `where` clause.
    WhereClause,
    /// The body.
    Body,
}

/// A failure to read a function item: what went wrong, in which part, and at
/// which token position.
#[derive(Clone, Copy, Debug, PartialEq, Eq, Structural)]
pub struct ParseError {
    pub kind: ErrorKind,
    pub stage: Stage,
    pub position: usize,
}

impl ErrorKind {
    /// The sentence that describes this kind of failure.
    pub open spec fn description(self) -> Seq<char> {
        match self {
            ErrorKind::LexicalMismatch => "expected token or delimiter is absent"@,
            ErrorKind::CaptureItemMalformed => "capture item is neither `pattern: type` nor a type"@,
            ErrorKind::GenericsOrWhereClauseMalformed => "generics or where clause is malformed"@,
            ErrorKind::BodyDelimiterUnbalanced => "delimiters are unbalanced"@,
        }
    }
}

impl Stage {
    /// The name of this part of a function item.
    pub open spec fn name(self) -> Seq<char> {
        match self {
            Stage::Nesting => "nesting"@,
            Stage::Attributes => "attributes"@,
            Stage::Visibility => "visibility"@,
            Stage::Abi => "abi"@,
            Stage::FnKeyword => "fn keyword"@,
            Stage::Ident => "identifier"@,
            Stage::TraitObject => "trait object"@,
            Stage::Generics => "generics"@,
            Stage::Parameters => "parameters"@,
            Stage::ReturnType => "return type"@,
            Stage::CaptureList => "capture list"@,
            Stage::CaptureItem => "capture item"@,
            Stage::WhereClause => "where clause"@,
            Stage::Body => "body"@,
        }
    }
}

impl ParseError {
    /// A failure of the given kind, met at `position` while reading `stage`.
    pub fn new(kind: ErrorKind, stage: Stage, position: usize) -> (r: ParseError)
        ensures
            r == (ParseError { kind, stage, position }),
    {
        ParseError { kind, stage, position }
    }

    /// The message of this failure, without its position: the part that was
    /// being read, a colon and a blank, and what went wrong.
    pub open spec fn message_text(self) -> Seq<char> {
        self.stage.name() + ": "@ + self.kind.description()
    }

    /// A message for the person who wrote the function item.  The position is
    /// not part of it: it is a number, in `position`.
    pub fn message(&self) -> (text: String)
        ensures
            text@ == self.message_text(),
    {
        let mut text = String::new();
        match self.stage {
            Stage::Nesting => text.append("nesting"),
            Stage::Attributes => text.append("attributes"),
            Stage::Visibility => text.append("visibility"),
            Stage::Abi => text.append("abi"),
            Stage::FnKeyword => text.append("fn keyword"),
            Stage::Ident => text.append("identifier"),
            Stage::TraitObject => text.append("trait object"),
            Stage::Generics => text.append("generics"),
            Stage::Parameters => text.append("parameters"),
            Stage::ReturnType => text.append("return type"),
            Stage::CaptureList => text.append("capture list"),
            Stage::CaptureItem => text.append("capture item"),
            Stage::WhereClause => text.append("where clause"),
            Stage::Body => text.append("body"),
        }
        text.append(": ");
        match self.kind {
            ErrorKind::LexicalMismatch => text.append("expected token or delimiter is absent"),
            ErrorKind::CaptureItemMalformed => text.append(
                "capture item is neither `pattern: type` nor a type",
            ),
            ErrorKind::GenericsOrWhereClauseMalformed => text.append(
                "generics or where clause is malformed",
            ),
            ErrorKind::BodyDelimiterUnbalanced => text.append("delimiters are unbalanced"),
        }
        text
    }
}

} // verus!
