use named_return::emit::{copy_range, emit_prefix, emit_return};
use named_return::error::{ErrorKind, ParseError, Stage};
use named_return::fn_arg_ret::{arg_captured, ArgCaptured, FnArgRet};
use named_return::fn_decl::Parameters;
use named_return::item_fn::{attrs, AttrStyle, Attribute, FilterAttrs, ItemFn};
use named_return::named::Named;
use named_return::named_return_with_sources;
use named_return::return_type::{ReturnType, SimpleReturn};
use named_return::plain::is_plain;
use named_return::syntax::{
    explain, find_end, find_refused, is_ident_at, prefix_end, read, Grammar,
};
use named_return::token::{
    check_nesting, count_trees, find_close, find_tree_end, render, render_range, skip_trees,
    Delimiter, Span, Token, TokenKind,
};
use proc_macro2::{Spacing, TokenStream, TokenTree};

fn flatten(stream: TokenStream, out: &mut Vec<Token>) {
    for tree in stream {
        match tree {
            TokenTree::Group(group) => {
                let delimiter = match group.delimiter() {
                    proc_macro2::Delimiter::Parenthesis => Delimiter::Parenthesis,
                    proc_macro2::Delimiter::Bracket => Delimiter::Bracket,
                    proc_macro2::Delimiter::Brace => Delimiter::Brace,
                    proc_macro2::Delimiter::None => {
                        flatten(group.stream(), out);
                        continue;
                    }
                };
                out.push(Token::open(delimiter));
                flatten(group.stream(), out);
                out.push(Token::close(delimiter));
            }
            TokenTree::Ident(ident) => out.push(Token::ident(&ident.to_string())),
            TokenTree::Punct(punct) => out.push(Token::punct(
                &punct.as_char().to_string(),
                punct.spacing() == Spacing::Joint,
            )),
            TokenTree::Literal(literal) => out.push(Token::literal(&literal.to_string())),
        }
    }
}

fn lex(source: &str) -> Vec<Token> {
    let stream: TokenStream = source.parse().unwrap();
    let mut out = Vec::new();
    flatten(stream, &mut out);
    out
}

fn span(start: usize, end: usize) -> Span {
    Span { start, end }
}

fn captured(pat: Span, colon_token: usize, ty: Span) -> ArgCaptured {
    ArgCaptured { pat, colon_token, ty }
}

// Tokens.

#[test]
fn tokens_are_made_as_asked() {
    assert_eq!(
        Token::ident("fn"),
        Token { kind: TokenKind::Ident, text: "fn".to_string(), joint: false }
    );
    assert_eq!(
        Token::punct("-", true),
        Token { kind: TokenKind::Punct, text: "-".to_string(), joint: true }
    );
    assert_eq!(
        Token::literal("\"a b\""),
        Token { kind: TokenKind::Literal, text: "\"a b\"".to_string(), joint: false }
    );
    assert_eq!(
        Token::open(Delimiter::Brace),
        Token { kind: TokenKind::Open(Delimiter::Brace), text: String::new(), joint: false }
    );
    assert_eq!(
        Token::close(Delimiter::Bracket),
        Token { kind: TokenKind::Close(Delimiter::Bracket), text: String::new(), joint: false }
    );
    assert_eq!(Token::punct(",", true).clone(), Token::punct(",", true));
}

#[test]
fn words_and_punctuation_are_told_apart() {
    assert!(Token::ident("fn").is_word("fn"));
    assert!(!Token::ident("fn").is_word("f"));
    assert!(!Token::literal("fn").is_word("fn"));
    assert!(!Token::punct("fn", false).is_word("fn"));
    assert!(Token::punct(":", false).is_punct(":"));
    assert!(Token::punct(":", true).is_punct(":"));
    assert!(!Token::punct(":", false).is_punct(","));
    assert!(!Token::ident(":").is_punct(":"));
}

#[test]
fn tokens_are_written_with_their_gaps() {
    assert_eq!(render(&Vec::new()), "");
    assert_eq!(render(&lex("fn f() -> A {}")), "fn f ( ) -> A { } ");
    assert_eq!(render(&lex("a::b<'c>[0]")), "a :: b <'c > [ 0 ] ");
    let tokens = lex("fn f(x: u8) {}");
    assert_eq!(render_range(&tokens, 2, 7), "( x : u8 ) ");
    assert_eq!(render_range(&tokens, 3, 3), "");
    let odd = vec![
        Token { kind: TokenKind::Open(Delimiter::Bracket), text: "ignored".to_string(), joint: true },
        Token { kind: TokenKind::Ident, text: "a".to_string(), joint: true },
        Token { kind: TokenKind::Close(Delimiter::Bracket), text: "ignored".to_string(), joint: false },
    ];
    assert_eq!(render(&odd), "[ a ] ");
}

#[test]
fn closing_brackets_are_found() {
    let tokens = lex("f ( a [ b ] { } ) c");
    assert_eq!(find_close(&tokens, 1, tokens.len()), Some(8));
    assert_eq!(find_close(&tokens, 3, tokens.len()), Some(5));
    assert_eq!(find_close(&tokens, 6, tokens.len()), Some(7));
    assert_eq!(find_close(&tokens, 1, 8), None);
    assert_eq!(find_close(&tokens, 1, 9), Some(8));
    assert_eq!(find_close(&tokens, 0, tokens.len()), None);
    assert_eq!(find_close(&tokens, 5, tokens.len()), None);
    assert_eq!(find_close(&tokens, 1, tokens.len() + 1), None);
    assert_eq!(find_close(&tokens, 20, tokens.len()), None);
    let crossed = vec![
        Token::open(Delimiter::Parenthesis),
        Token::open(Delimiter::Bracket),
        Token::close(Delimiter::Parenthesis),
        Token::close(Delimiter::Bracket),
    ];
    assert_eq!(find_close(&crossed, 0, 4), None);
    assert_eq!(find_close(&crossed, 1, 4), None);
}

#[test]
fn token_trees_are_walked() {
    let tokens = lex("f ( a [ b ] { } ) c");
    assert_eq!(find_tree_end(&tokens, 0, tokens.len()), Some(1));
    assert_eq!(find_tree_end(&tokens, 1, tokens.len()), Some(9));
    assert_eq!(find_tree_end(&tokens, 8, tokens.len()), None);
    assert_eq!(find_tree_end(&tokens, 10, tokens.len()), None);
    assert_eq!(skip_trees(&tokens, 0, tokens.len(), 0), Some(0));
    assert_eq!(skip_trees(&tokens, 0, tokens.len(), 1), Some(1));
    assert_eq!(skip_trees(&tokens, 0, tokens.len(), 2), Some(9));
    assert_eq!(skip_trees(&tokens, 0, tokens.len(), 3), Some(10));
    assert_eq!(skip_trees(&tokens, 0, tokens.len(), 4), None);
    assert_eq!(skip_trees(&tokens, 2, 8, 3), Some(8));
    assert_eq!(skip_trees(&tokens, 2, 8, 4), None);
    assert_eq!(skip_trees(&tokens, 10, tokens.len(), 0), Some(10));
    assert_eq!(skip_trees(&tokens, 11, tokens.len(), 0), None);
}

#[test]
fn nesting_is_checked() {
    assert_eq!(check_nesting(&Vec::new()), None);
    assert_eq!(check_nesting(&lex("f ( a [ b ] { } ) c")), None);
    let mut tokens = lex("f ( a [ b ] { } ) c");
    tokens.remove(5);
    assert_eq!(check_nesting(&tokens), Some(1));
    let mut tokens = lex("f ( a ) c");
    tokens.remove(1);
    assert_eq!(check_nesting(&tokens), Some(2));
    let mut tokens = lex("f ( a ) c");
    tokens.remove(3);
    assert_eq!(check_nesting(&tokens), Some(1));
}

// What the host grammar reads.

#[test]
fn outer_attributes_are_read_by_the_host_grammar() {
    assert_eq!(read(Grammar::OuterAttributes, "fn f ( ) { }"), Some(4));
    assert_eq!(read(Grammar::OuterAttributes, "# [ inline ] # [ doc = \"x\" ] fn f ( ) { }"), Some(4));
    assert_eq!(read(Grammar::OuterAttributes, "# [ 5 ] fn"), None);
    assert_eq!(read(Grammar::OuterAttributes, "# ! [ inline ] fn"), None);
    assert_eq!(read(Grammar::OuterAttributes, ""), Some(0));
    assert_eq!(read(Grammar::OuterAttributes, "( "), None);
}

#[test]
fn visibility_is_read_by_the_host_grammar() {
    assert_eq!(read(Grammar::Visibility, "fn f"), Some(2));
    assert_eq!(read(Grammar::Visibility, "pub fn f"), Some(2));
    assert_eq!(read(Grammar::Visibility, "pub ( crate ) fn f"), Some(2));
    assert_eq!(read(Grammar::Visibility, "pub ( in a :: b ) fn f"), Some(2));
    assert_eq!(read(Grammar::Visibility, "crate fn f"), Some(2));
    assert_eq!(read(Grammar::Visibility, "pub ( in 5 ) fn f"), None);
}

#[test]
fn abi_is_read_by_the_host_grammar() {
    assert_eq!(read(Grammar::Abi, "fn f"), Some(2));
    assert_eq!(read(Grammar::Abi, "extern fn f"), Some(2));
    assert_eq!(read(Grammar::Abi, "extern \"C\" fn f"), Some(2));
    assert_eq!(read(Grammar::Abi, "extern 5 fn f"), Some(3));
}

#[test]
fn generics_are_read_by_the_host_grammar() {
    assert_eq!(read(Grammar::Generics, "( ) -> A"), Some(4));
    assert_eq!(read(Grammar::Generics, "< T > ( ) -> A"), Some(4));
    assert_eq!(read(Grammar::Generics, "< 'a , T : Clone + 'a , U = Vec < T > > ( )"), Some(1));
    assert_eq!(read(Grammar::Generics, "< T : ? Sized + Iterator < Item = u8 > > ( )"), Some(1));
    assert_eq!(read(Grammar::Generics, "< T ( )"), None);
}

#[test]
fn parameters_are_read_by_the_host_grammar() {
    assert_eq!(read(Grammar::FnArg, "x : u8 , y : u8"), Some(4));
    assert_eq!(read(Grammar::FnArg, "& mut self , y : u8"), Some(4));
    assert_eq!(read(Grammar::FnArg, "self"), Some(0));
    assert_eq!(read(Grammar::FnArg, "( a , b ) : ( A , B )"), Some(0));
    assert_eq!(read(Grammar::FnArg, "args : ..."), Some(0));
    assert_eq!(read(Grammar::FnArg, "u8 , y"), Some(2));
    assert_eq!(read(Grammar::FnArg, ", y"), None);
}

#[test]
fn patterns_are_read_by_the_host_grammar() {
    assert_eq!(read(Grammar::Pattern, "a : A , b : B"), Some(6));
    assert_eq!(read(Grammar::Pattern, "mut a : A"), Some(2));
    assert_eq!(read(Grammar::Pattern, "( a , b ) : ( A , B )"), Some(2));
    assert_eq!(read(Grammar::Pattern, "A , B"), Some(2));
    assert_eq!(read(Grammar::Pattern, "= a"), None);
}

#[test]
fn types_are_read_by_the_host_grammar() {
    assert_eq!(read(Grammar::Type, "A , B"), Some(2));
    assert_eq!(read(Grammar::Type, "A where"), Some(1));
    assert_eq!(read(Grammar::Type, "Vec < ( u8 , u8 ) > , B"), Some(2));
    assert_eq!(read(Grammar::Type, "& 'a mut [ u8 ] where"), Some(1));
    assert_eq!(read(Grammar::Type, "impl Fn ( A ) -> B + Send where"), Some(1));
    assert_eq!(read(Grammar::Type, "[ u8 ; 4 ] , B"), Some(2));
    assert_eq!(read(Grammar::Type, "[ u8 ; N ] , B"), Some(2));
    assert_eq!(read(Grammar::Type, "* const u8 , B"), Some(2));
    assert_eq!(read(Grammar::Type, "Box < dyn Fn ( & 'a u8 ) + 'static > , B"), Some(2));
    assert_eq!(read(Grammar::Type, "for < 'a > fn ( & 'a u8 ) , B"), Some(2));
    assert_eq!(read(Grammar::Type, "5"), None);
    assert_eq!(read(Grammar::Type, ""), None);
    assert_eq!(read(Grammar::Type, "A )"), None);
}

#[test]
fn where_clauses_are_read_by_the_host_grammar() {
    assert_eq!(read(Grammar::WhereClause, ""), Some(0));
    assert_eq!(read(Grammar::WhereClause, "A"), Some(1));
    assert_eq!(read(Grammar::WhereClause, "where T : Clone ,"), Some(0));
    assert_eq!(read(Grammar::WhereClause, "where T : Clone , U : Fn ( T ) -> T"), Some(0));
    assert_eq!(read(Grammar::WhereClause, "where"), Some(0));
    assert_eq!(read(Grammar::WhereClause, "where 5 : Clone"), None);
}

#[test]
fn only_plain_texts_are_read_for_types_and_the_like() {
    for grammar in [
        Grammar::Generics,
        Grammar::FnArg,
        Grammar::Pattern,
        Grammar::Type,
        Grammar::WhereClause,
    ] {
        for text in [
            "for < 'a > dyn 'b + T",
            "for<'a>dyn'b+T",
            "< for < 'a > dyn 'b + T > :: X",
            "x : for < 'a > dyn'b + T",
            "where Vec < for < 'a > dyn   'b + T > : X",
            "for < 'a > /* c */ dyn 'b + T",
            "for < 'a > dyn /* c */ 'b + T",
            "for < 'a >\tdyn\n'b + T",
            "[ u8 ; { let x : for < 'a > dyn 'b + T ; 0 } ]",
        ] {
            assert_eq!(read(grammar, text), None, "{:?} {:?}", grammar, text);
        }
    }
    assert_eq!(read(Grammar::OuterAttributes, "# [ doc = \"{ for<'a> dyn 'b }\" ] fn"), Some(1));
    assert_eq!(read(Grammar::Visibility, "pub for < 'a > dyn 'b + T"), Some(10));
    assert_eq!(read(Grammar::Abi, "extern \"C\" for < 'a > dyn 'b + T"), Some(10));
}

#[test]
fn texts_of_every_other_kind_are_handed_to_the_host_grammar() {
    assert_eq!(read(Grammar::Type, "dyn 'b + T , x"), Some(2));
    assert_eq!(read(Grammar::Type, "for < 'a > dyn T + 'b , x"), Some(2));
    assert_eq!(read(Grammar::Type, "for < 'a > dyn for < 'b > Fn ( & 'a u8 , & 'b u8 ) , x"), Some(2));
    assert_eq!(read(Grammar::Type, "A { }"), Some(1));
    assert_eq!(read(Grammar::Type, "[ u8 ; N + 1 ] , B"), Some(2));
    assert_eq!(read(Grammar::Type, "[ u8 ; { N + 1 } ] , B"), Some(2));
    assert_eq!(read(Grammar::Type, "[ u8 ; { fn g ( ) { } 4 } ] { }"), Some(1));
    assert_eq!(read(Grammar::Type, "[ & str ; \"a > dyn\" . len ( ) ] , B"), Some(2));
    assert_eq!(read(Grammar::Type, "[ u8 ; ]"), None);
    assert_eq!(read(Grammar::Type, "Foo < { 1 } > , B"), Some(2));
    assert_eq!(read(Grammar::Type, "extern \"C\" fn ( u8 ) -> u8 , B"), Some(2));
    assert_eq!(read(Grammar::Type, "A /* c */ , B // d"), Some(2));
    assert_eq!(read(Grammar::Type, "A\t,\nB"), Some(2));
    assert_eq!(read(Grammar::Type, "m ! { a } , B"), Some(2));
    assert_eq!(read(Grammar::Type, "& \"x\""), None);
    assert_eq!(read(Grammar::Type, "\u{e9} , B"), Some(2));
    assert_eq!(read(Grammar::Generics, "< const N : usize > ( )"), Some(1));
    assert_eq!(read(Grammar::Generics, "< # [ a ] T > ( )"), Some(1));
    assert_eq!(read(Grammar::Pattern, "S { a , b } : S"), Some(2));
    assert_eq!(read(Grammar::Pattern, "\"a\" : A"), Some(2));
    assert_eq!(read(Grammar::Pattern, "1 ..= 2 : A"), Some(2));
    assert_eq!(read(Grammar::FnArg, "S { a , b } : S , c : C"), Some(4));
    assert_eq!(read(Grammar::FnArg, "x : [ u8 ; N * 2 ] , c : C"), Some(4));
    assert_eq!(read(Grammar::WhereClause, "where [ u8 ; { N } ] : Copy { }"), Some(1));
}

#[test]
fn plain_texts_are_told_from_others() {
    for text in [
        "",
        "A",
        "dyn",
        "> dyn",
        "\u{e9} dyn 'b",
        "\u{7f}dyn 'b",
        "for < 'a > dyn \u{c9}toile < 'a >",
        "for < 'a > dyn ~ 'b",
        "dyn '",
        "> dyn 'b",
        ">dyn'b",
        "-> dyn 'b",
        "x->dyn'b",
        "> dyn /",
        "dyn 'a + T",
        "dyn'a",
        "mydyn   'a",
        "for < 'a > mydyn 'b",
        "for < 'a > dynamo 'b",
        "for < 'a > dyn T + 'b",
        "for < 'a > dyn + 'b",
        "for < 'a > dy 'b",
        "for < 'a > A dyn 'b",
        "> , dyn 'b",
        "& 'a dyn T",
        "Box < dyn Fn ( A ) -> B + 'a >",
        "const N : usize",
        "[ u8 ; N + 1 ] { } \" # / \\ | @ $ % ^ ~ ` \t \n \u{e9}",
    ] {
        assert!(is_plain(text), "{:?}", text);
    }
    for text in [
        "for < 'a > dyn 'b + T",
        "a> dyn '",
        "<>dyn'",
        ",>    dyn    '",
        "- > dyn 'b",
        "=> dyn 'b",
        "x > dyn 'b y",
        "/ dyn 'b",
        "*/dyn'b",
        "\n dyn 'b",
        "\tdyn 'b",
        "\u{85} dyn 'b",
        "\u{200e}dyn 'b",
        "a> dyn\u{3000}",
        "a> dyn \u{2028}'b",
        "a> dyn /",
        "a> dyn//",
        "a> dyn  \n",
        "a> dyn\u{2003}'b",
        "\u{a0}dyn\u{a0}",
        "> dyn T > dyn 'b",
    ] {
        assert!(!is_plain(text), "{:?}", text);
    }
}

#[test]
fn refusal_is_at_the_first_token_that_makes_the_text_not_plain() {
    let tokens = lex("x : for < 'a > dyn 'b + T , y : u8");
    let len = tokens.len();
    assert_eq!(find_refused(&tokens, 0, len), Some(8));
    assert_eq!(find_refused(&tokens, 0, 9), Some(8));
    assert_eq!(find_refused(&tokens, 5, len), Some(8));
    assert_eq!(find_refused(&tokens, 0, 8), None);
    assert_eq!(find_refused(&tokens, 6, len), None);
    assert_eq!(find_refused(&tokens, 7, len), None);
    assert_eq!(find_refused(&tokens, 9, len), None);
    assert_eq!(find_refused(&tokens, 3, 3), None);
    assert_eq!(find_refused(&tokens, 4, 3), None);
    assert_eq!(find_refused(&tokens, 0, len + 1), None);
    let arrow = lex("-> dyn 'b + T");
    assert_eq!(find_refused(&arrow, 0, arrow.len()), None);
    let written = vec![Token::ident("A>  dyn"), Token::literal("/* */"), Token::ident("T")];
    assert_eq!(find_refused(&written, 0, 3), Some(1));
    assert_eq!(find_refused(&written, 0, 1), None);
}

#[test]
fn parts_read_alone_are_refused_at_the_lifetime() {
    let tokens = lex("for < 'a > dyn 'b + T");
    let len = tokens.len();
    assert_eq!(find_end(&tokens, 0, len, Grammar::Type), None);
    assert_eq!(find_end(&tokens, 0, len, Grammar::Pattern), None);
    let refused = |position| ParseError::new(ErrorKind::LexicalMismatch, Stage::TraitObject, position);
    assert_eq!(FnArgRet::parse(&tokens, 0, len), Err(refused(6)));
    assert_eq!(
        explain(&tokens, 0, len, Grammar::Type, ParseError::new(ErrorKind::CaptureItemMalformed, Stage::CaptureItem, 0)),
        refused(6)
    );
    assert_eq!(
        explain(&tokens, 0, len, Grammar::Abi, ParseError::new(ErrorKind::LexicalMismatch, Stage::Abi, 0)),
        ParseError::new(ErrorKind::LexicalMismatch, Stage::Abi, 0)
    );
    assert_eq!(
        explain(&tokens, 5, len, Grammar::Type, ParseError::new(ErrorKind::LexicalMismatch, Stage::ReturnType, 5)),
        ParseError::new(ErrorKind::LexicalMismatch, Stage::ReturnType, 5)
    );
    let clause = lex("-> for < 'a > dyn 'b + T");
    assert_eq!(ReturnType::parse(&clause, 0, clause.len()), Err(refused(8)));
    let list = lex("-> ( a : A , for < 'a > dyn 'b + T )");
    assert_eq!(ReturnType::parse(&list, 0, list.len()), Err(refused(13)));
    assert_eq!(Named::parse(&list, 2, list.len()), Err(refused(13)));
    let parameters = lex("( x : u8 , y : for < 'a > dyn 'b + T )");
    assert_eq!(Parameters::parse(&parameters, 0, parameters.len()), Err(refused(13)));
    let five = lex("( a : A , 5 )");
    assert_eq!(
        Named::parse(&five, 0, five.len()),
        Err(ParseError::new(ErrorKind::CaptureItemMalformed, Stage::CaptureItem, 5))
    );
    assert_eq!(find_end(&tokens, 5, len, Grammar::Type), Some(len));
    assert_eq!(
        FnArgRet::parse(&tokens, 5, len),
        Ok((FnArgRet::Ignored(Span { start: 5, end: len }), len))
    );
}

#[test]
fn identifiers_are_told_from_keywords() {
    let tokens = lex("f fn r#fn _ a1 Self 1 ( )");
    assert!(is_ident_at(&tokens, 0));
    assert!(!is_ident_at(&tokens, 1));
    assert!(is_ident_at(&tokens, 2));
    assert!(!is_ident_at(&tokens, 3));
    assert!(is_ident_at(&tokens, 4));
    assert!(!is_ident_at(&tokens, 5));
    assert!(!is_ident_at(&tokens, 6));
    assert!(!is_ident_at(&tokens, 7));
    assert!(!is_ident_at(&tokens, 9));
    assert!(!is_ident_at(&vec![Token::punct("f", false)], 0));
    assert!(!is_ident_at(&vec![Token::ident("a b")], 0));
}

#[test]
fn parts_end_where_the_count_says() {
    let tokens = lex("a : Vec < ( u8 , u8 ) > , b : B");
    assert_eq!(prefix_end(&tokens, 2, tokens.len(), Some(4)), Some(10));
    assert_eq!(prefix_end(&tokens, 2, tokens.len(), Some(8)), Some(2));
    assert_eq!(prefix_end(&tokens, 2, tokens.len(), Some(0)), Some(14));
    assert_eq!(prefix_end(&tokens, 2, tokens.len(), Some(9)), None);
    assert_eq!(prefix_end(&tokens, 2, tokens.len(), None), None);
    assert_eq!(prefix_end(&tokens, 5, 8, Some(1)), Some(7));
    assert_eq!(prefix_end(&tokens, 5, 8, Some(3)), Some(5));
    assert_eq!(prefix_end(&tokens, 5, 7, Some(0)), Some(7));
    assert_eq!(prefix_end(&tokens, 4, 7, Some(0)), None);
    assert_eq!(prefix_end(&tokens, 9, 8, Some(0)), None);
    assert_eq!(find_end(&tokens, 0, tokens.len(), Grammar::Pattern), Some(1));
    assert_eq!(find_end(&tokens, 2, tokens.len(), Grammar::Type), Some(10));
    assert_eq!(find_end(&tokens, 11, tokens.len(), Grammar::FnArg), Some(14));
    assert_eq!(find_end(&tokens, 1, tokens.len(), Grammar::Type), None);
    assert_eq!(find_end(&tokens, 4, 3, Grammar::Type), None);
    assert_eq!(find_end(&tokens, 0, tokens.len() + 1, Grammar::Type), None);
}

#[test]
fn token_trees_are_counted() {
    let tokens = lex("f ( a [ b ] { } ) c");
    assert_eq!(count_trees(&tokens, 0, tokens.len()), Some(3));
    assert_eq!(count_trees(&tokens, 2, 8), Some(3));
    assert_eq!(count_trees(&tokens, 3, 6), Some(1));
    assert_eq!(count_trees(&tokens, 4, 4), Some(0));
    assert_eq!(count_trees(&tokens, 1, 8), None);
    assert_eq!(count_trees(&tokens, 5, 7), None);
    assert_eq!(count_trees(&tokens, 5, 4), None);
    assert_eq!(count_trees(&tokens, 0, tokens.len() + 1), None);
}

// Capture items and capture lists.

#[test]
fn captures_are_put_together() {
    assert_eq!(
        ArgCaptured::assemble(3, 9, Some(4), true, Some(9)),
        Some(captured(span(3, 4), 4, span(5, 9)))
    );
    assert_eq!(ArgCaptured::assemble(3, 9, Some(4), false, Some(9)), None);
    assert_eq!(ArgCaptured::assemble(3, 9, Some(3), true, Some(9)), None);
    assert_eq!(ArgCaptured::assemble(3, 9, Some(4), true, Some(5)), None);
    assert_eq!(ArgCaptured::assemble(3, 9, Some(4), true, Some(10)), None);
    assert_eq!(ArgCaptured::assemble(3, 9, Some(9), true, Some(9)), None);
    assert_eq!(ArgCaptured::assemble(3, 9, None, true, Some(9)), None);
    assert_eq!(ArgCaptured::assemble(3, 9, Some(4), true, None), None);
}

#[test]
fn capture_items_are_classified() {
    let named = captured(span(3, 4), 4, span(5, 9));
    assert_eq!(
        FnArgRet::classify(3, 9, Some(named), Some(4)),
        Ok((FnArgRet::Captured(named), 9))
    );
    assert_eq!(
        FnArgRet::classify(3, 9, Some(named), None),
        Ok((FnArgRet::Captured(named), 9))
    );
    assert_eq!(FnArgRet::classify(3, 9, None, Some(4)), Ok((FnArgRet::Ignored(span(3, 4)), 4)));
    assert_eq!(FnArgRet::classify(3, 9, None, Some(9)), Ok((FnArgRet::Ignored(span(3, 9)), 9)));
    let malformed =
        ParseError { kind: ErrorKind::CaptureItemMalformed, stage: Stage::CaptureItem, position: 3 };
    assert_eq!(FnArgRet::classify(3, 9, None, None), Err(malformed));
    assert_eq!(FnArgRet::classify(3, 9, None, Some(3)), Err(malformed));
    assert_eq!(FnArgRet::classify(3, 9, None, Some(10)), Err(malformed));
    assert_eq!(FnArgRet::Captured(named).type_span(), span(5, 9));
    assert_eq!(FnArgRet::Ignored(span(3, 4)).type_span(), span(3, 4));
}

#[test]
fn capture_items_are_read() {
    let tokens = lex("a : A , B , ( x , y ) : ( A , B ) , 5");
    assert_eq!(arg_captured(&tokens, 0, tokens.len()), Some(captured(span(0, 1), 1, span(2, 3))));
    assert_eq!(arg_captured(&tokens, 4, tokens.len()), None);
    assert_eq!(
        FnArgRet::parse(&tokens, 0, tokens.len()),
        Ok((FnArgRet::Captured(captured(span(0, 1), 1, span(2, 3))), 3))
    );
    assert_eq!(FnArgRet::parse(&tokens, 4, tokens.len()), Ok((FnArgRet::Ignored(span(4, 5)), 5)));
    assert_eq!(
        FnArgRet::parse(&tokens, 6, tokens.len()),
        Ok((FnArgRet::Captured(captured(span(6, 11), 11, span(12, 17))), 17))
    );
    assert_eq!(
        FnArgRet::parse(&tokens, 18, tokens.len()),
        Err(ParseError {
            kind: ErrorKind::CaptureItemMalformed,
            stage: Stage::CaptureItem,
            position: 18,
        })
    );
    assert_eq!(
        FnArgRet::parse(&tokens, 19, tokens.len()),
        Err(ParseError {
            kind: ErrorKind::CaptureItemMalformed,
            stage: Stage::CaptureItem,
            position: 19,
        })
    );
}

#[test]
fn capture_lists_are_read() {
    let tokens = lex("-> ( a : A , B , ) { }");
    assert_eq!(
        Named::parse(&tokens, 2, tokens.len()),
        Ok(Named {
            paren_token: span(2, 10),
            outputs: vec![
                FnArgRet::Captured(captured(span(3, 4), 4, span(5, 6))),
                FnArgRet::Ignored(span(7, 8)),
            ],
        })
    );
    let empty = lex("( )");
    assert_eq!(
        Named::parse(&empty, 0, 2),
        Ok(Named { paren_token: span(0, 2), outputs: Vec::new() })
    );
    assert_eq!(
        Named::parse(&tokens, 0, tokens.len()),
        Err(ParseError { kind: ErrorKind::LexicalMismatch, stage: Stage::CaptureList, position: 0 })
    );
    assert_eq!(
        Named::parse(&tokens, 2, 9),
        Err(ParseError {
            kind: ErrorKind::BodyDelimiterUnbalanced,
            stage: Stage::CaptureList,
            position: 2,
        })
    );
    let doubled = lex("( a : A , , B )");
    assert_eq!(
        Named::parse(&doubled, 0, doubled.len()),
        Err(ParseError {
            kind: ErrorKind::CaptureItemMalformed,
            stage: Stage::CaptureItem,
            position: 5,
        })
    );
}

#[test]
fn return_clauses_are_read() {
    let tokens = lex("fn f ( ) -> ( a : A ) { }");
    assert_eq!(
        ReturnType::parse(&tokens, 4, tokens.len()),
        Ok((
            ReturnType::Named(
                4,
                Named {
                    paren_token: span(6, 11),
                    outputs: vec![FnArgRet::Captured(captured(span(7, 8), 8, span(9, 10)))],
                }
            ),
            11
        ))
    );
    assert_eq!(ReturnType::parse(&tokens, 3, tokens.len()), Ok((ReturnType::Default, 3)));
    assert_eq!(ReturnType::parse(&tokens, 40, tokens.len()), Ok((ReturnType::Default, 40)));
    let plain = lex("-> Vec < u8 > where");
    assert_eq!(
        ReturnType::parse(&plain, 0, plain.len()),
        Ok((ReturnType::Type(0, span(2, 6)), 6))
    );
    let apart = vec![Token::punct("-", false), Token::punct(">", false), Token::ident("A")];
    assert_eq!(ReturnType::parse(&apart, 0, 3), Ok((ReturnType::Default, 0)));
    let alone = lex("->");
    assert_eq!(
        ReturnType::parse(&alone, 0, 2),
        Err(ParseError { kind: ErrorKind::LexicalMismatch, stage: Stage::ReturnType, position: 2 })
    );
}

#[test]
fn return_types_collapse_by_the_number_of_items() {
    let a = FnArgRet::Captured(captured(span(7, 8), 8, span(9, 10)));
    let b = FnArgRet::Ignored(span(11, 12));
    let c = FnArgRet::Captured(captured(span(13, 14), 14, span(15, 16)));
    let list = |outputs: Vec<FnArgRet>, end: usize| {
        ReturnType::Named(4, Named { paren_token: span(6, end), outputs })
    };
    assert_eq!(ReturnType::Default.simple(), SimpleReturn::Default);
    assert_eq!(
        ReturnType::Type(4, span(6, 9)).simple(),
        SimpleReturn::Single { arrow: 4, ty: span(6, 9) }
    );
    assert_eq!(list(vec![], 8).simple(), SimpleReturn::Default);
    assert_eq!(list(vec![a], 11).simple(), SimpleReturn::Single { arrow: 4, ty: span(9, 10) });
    assert_eq!(list(vec![b], 13).simple(), SimpleReturn::Single { arrow: 4, ty: span(11, 12) });
    assert_eq!(
        list(vec![a, b], 13).simple(),
        SimpleReturn::Tuple { arrow: 4, paren_token: span(6, 13), elems: vec![span(9, 10), span(11, 12)] }
    );
    assert_eq!(
        list(vec![a, b, c], 17).simple(),
        SimpleReturn::Tuple {
            arrow: 4,
            paren_token: span(6, 17),
            elems: vec![span(9, 10), span(11, 12), span(15, 16)],
        }
    );
}

#[test]
fn only_named_captures_are_declared() {
    let a = captured(span(7, 8), 8, span(9, 10));
    let c = captured(span(13, 14), 14, span(15, 16));
    let b = FnArgRet::Ignored(span(11, 12));
    let list = |outputs: Vec<FnArgRet>| {
        ReturnType::Named(4, Named { paren_token: span(6, 17), outputs })
    };
    assert_eq!(ReturnType::Default.captures(), None);
    assert_eq!(ReturnType::Type(4, span(6, 9)).captures(), None);
    assert_eq!(list(vec![]).captures(), None);
    assert_eq!(list(vec![b]).captures(), None);
    assert_eq!(list(vec![b, b]).captures(), None);
    assert_eq!(list(vec![FnArgRet::Captured(a)]).captures(), Some(vec![a]));
    assert_eq!(list(vec![FnArgRet::Captured(a), b]).captures(), Some(vec![a]));
    assert_eq!(
        list(vec![FnArgRet::Captured(a), b, FnArgRet::Captured(c)]).captures(),
        Some(vec![a, c])
    );
    assert_eq!(
        list(vec![FnArgRet::Captured(c), FnArgRet::Captured(a)]).captures(),
        Some(vec![c, a])
    );
}

// Parameters and the whole item.

#[test]
fn parameters_are_read() {
    let tokens = lex("fn f ( & self , ( a , b ) : ( A , B ) , c : C , ) { }");
    assert_eq!(
        Parameters::parse(&tokens, 2, tokens.len()),
        Ok(Parameters {
            paren_token: span(2, 23),
            inputs: vec![span(3, 5), span(6, 17), span(18, 21)],
            variadic: false,
        })
    );
    let variadic = lex("( fmt : & str , args : ... )");
    assert_eq!(
        Parameters::parse(&variadic, 0, variadic.len()),
        Ok(Parameters { paren_token: span(0, 12), inputs: vec![span(1, 5), span(6, 11)], variadic: true })
    );
    let trailing = lex("( fmt : & str , args : ... , )");
    assert_eq!(
        Parameters::parse(&trailing, 0, trailing.len()).map(|parameters| parameters.variadic),
        Ok(false)
    );
    assert_eq!(
        Parameters::parse(&tokens, 1, tokens.len()),
        Err(ParseError { kind: ErrorKind::LexicalMismatch, stage: Stage::Parameters, position: 1 })
    );
    assert_eq!(
        Parameters::parse(&tokens, 2, 22),
        Err(ParseError {
            kind: ErrorKind::BodyDelimiterUnbalanced,
            stage: Stage::Parameters,
            position: 2,
        })
    );
}

#[test]
fn items_are_read_part_by_part() {
    let tokens = lex(
        "#[inline] #[cold] pub(crate) const unsafe async extern \"C\" fn f<T>(x: T) -> (r: T) where T: Copy { r = x; r }",
    );
    let item = ItemFn::parse(&tokens).unwrap();
    assert_eq!(
        item.attrs,
        vec![
            Attribute { style: AttrStyle::Outer, span: span(0, 4) },
            Attribute { style: AttrStyle::Outer, span: span(4, 8) },
        ]
    );
    assert_eq!(item.vis, span(8, 12));
    assert_eq!(item.constness, Some(12));
    assert_eq!(item.unsafety, Some(13));
    assert_eq!(item.asyncness, Some(14));
    assert_eq!(item.abi, Some(span(15, 17)));
    assert_eq!(item.decl.fn_token, 17);
    assert_eq!(item.ident, 18);
    assert_eq!(item.decl.generics.params, span(19, 22));
    assert_eq!(item.decl.paren_token, span(22, 27));
    assert_eq!(item.decl.inputs, vec![span(23, 26)]);
    assert!(!item.decl.variadic);
    assert_eq!(
        item.decl.output,
        ReturnType::Named(
            27,
            Named {
                paren_token: span(29, 34),
                outputs: vec![FnArgRet::Captured(captured(span(30, 31), 31, span(32, 33)))],
            }
        )
    );
    assert_eq!(item.decl.generics.where_clause, span(34, 38));
    assert_eq!(item.block, span(38, tokens.len()));

    let plain = lex("fn f() {}");
    let item = ItemFn::parse(&plain).unwrap();
    assert_eq!(item.attrs, Vec::new());
    assert_eq!(item.vis, span(0, 0));
    assert_eq!(item.constness, None);
    assert_eq!(item.unsafety, None);
    assert_eq!(item.asyncness, None);
    assert_eq!(item.abi, None);
    assert_eq!(item.decl.generics.params, span(2, 2));
    assert_eq!(item.decl.output, ReturnType::Default);
    assert_eq!(item.decl.generics.where_clause, span(4, 4));
    assert_eq!(item.block, span(4, 6));
    assert_eq!(item.to_tokens(&plain), plain);
}

#[test]
fn attributes_are_merged_and_filtered() {
    let a = Attribute { style: AttrStyle::Outer, span: span(0, 4) };
    let b = Attribute { style: AttrStyle::Inner, span: span(9, 14) };
    let c = Attribute { style: AttrStyle::Outer, span: span(4, 8) };
    assert_eq!(attrs(vec![a, c], vec![b]), vec![a, c, b]);
    assert_eq!(attrs(vec![], vec![b]), vec![b]);
    assert_eq!(attrs(vec![a], vec![]), vec![a]);
    assert_eq!(attrs(vec![], vec![]), Vec::<Attribute>::new());
    assert_eq!(vec![a, b, c].outer(), vec![a, c]);
    assert_eq!(vec![a, b, c].inner(), vec![b]);
    assert_eq!(vec![a, c].inner(), Vec::<Attribute>::new());
    assert_eq!(Vec::<Attribute>::new().outer(), Vec::<Attribute>::new());
}

// Writing.

#[test]
fn ranges_are_copied() {
    let tokens = lex("a b ( c ) d");
    let mut out = vec![Token::ident("x")];
    copy_range(&tokens, 1, 5, &mut out);
    assert_eq!(out, lex("x b ( c )"));
    copy_range(&tokens, 3, 3, &mut out);
    assert_eq!(out, lex("x b ( c )"));
}

#[test]
fn return_clauses_are_written() {
    let tokens = lex("fn f ( ) -> ( a : A , B , c : C , ) { }");
    let mut out = Vec::new();
    emit_return(&tokens, &SimpleReturn::Default, &mut out);
    assert_eq!(out, Vec::new());
    emit_return(&tokens, &SimpleReturn::Single { arrow: 4, ty: span(9, 10) }, &mut out);
    assert_eq!(out, lex("-> A"));
    let mut out = Vec::new();
    emit_return(
        &tokens,
        &SimpleReturn::Tuple {
            arrow: 4,
            paren_token: span(6, 18),
            elems: vec![span(9, 10), span(11, 12), span(15, 16)],
        },
        &mut out,
    );
    assert_eq!(out, lex("-> ( A , B , C , )"));
}

#[test]
fn declarations_are_written() {
    let tokens = lex("fn f ( ) -> ( a : A , B , c : C , ) { }");
    let a = captured(span(7, 8), 8, span(9, 10));
    let c = captured(span(13, 14), 14, span(15, 16));
    let mut out = Vec::new();
    emit_prefix(&tokens, &None, &mut out);
    assert_eq!(out, Vec::new());
    emit_prefix(&tokens, &Some(Vec::new()), &mut out);
    assert_eq!(out, Vec::new());
    emit_prefix(&tokens, &Some(vec![a]), &mut out);
    assert_eq!(out, lex("let a : A ;"));
    let mut out = Vec::new();
    emit_prefix(&tokens, &Some(vec![a, c]), &mut out);
    assert_eq!(out, lex("let ( a , c ) : ( A , C ) ;"));
    let mut out = Vec::new();
    emit_prefix(&tokens, &Some(vec![c, a, c]), &mut out);
    assert_eq!(out, lex("let ( c , a , c ) : ( C , A , C ) ;"));
}

#[test]
fn sources_say_where_the_tokens_come_from() {
    let tokens = lex("fn f ( ) -> ( a : A , B , c : C ) where A : X { a }");
    let item = ItemFn::parse(&tokens).unwrap();
    let out = item.to_tokens(&tokens);
    assert_eq!(out, lex("fn f ( ) -> ( A , B , C ) where A : X { let ( a , c ) : ( A , C ) ; a }"));
    let from = item.sources(tokens.len());
    assert_eq!(
        from,
        vec![
            Some(0),
            Some(1),
            Some(2),
            Some(3),
            Some(4),
            Some(5),
            Some(6),
            Some(9),
            Some(10),
            Some(11),
            Some(12),
            Some(15),
            Some(16),
            Some(17),
            Some(18),
            Some(19),
            Some(20),
            Some(21),
            None,
            None,
            Some(7),
            None,
            Some(13),
            None,
            None,
            None,
            Some(9),
            None,
            Some(15),
            None,
            None,
            Some(22),
            Some(23),
        ]
    );
    for (token, source) in out.iter().zip(&from) {
        if let Some(position) = source {
            assert_eq!(*token, tokens[*position]);
        }
    }
    assert_eq!(
        named_return_with_sources(lex("fn f ( ) -> ( a : A ) { a }")),
        Ok((
            lex("fn f ( ) -> A { let a : A ; a }"),
            vec![
                Some(0),
                Some(1),
                Some(2),
                Some(3),
                Some(4),
                Some(5),
                Some(9),
                Some(11),
                None,
                Some(7),
                None,
                Some(9),
                None,
                Some(12),
                Some(13),
            ]
        ))
    );
    let plain = lex("fn f ( ) { }");
    assert_eq!(
        named_return_with_sources(plain.clone()),
        Ok((plain, vec![Some(0), Some(1), Some(2), Some(3), Some(4), Some(5)]))
    );
    assert_eq!(
        named_return_with_sources(lex("f ( ) { }")),
        Err(ParseError { kind: ErrorKind::LexicalMismatch, stage: Stage::FnKeyword, position: 0 })
    );
}

#[test]
fn failures_carry_what_they_were_made_with() {
    assert_eq!(
        ParseError::new(ErrorKind::LexicalMismatch, Stage::Body, 7),
        ParseError { kind: ErrorKind::LexicalMismatch, stage: Stage::Body, position: 7 }
    );
    assert_eq!(
        ParseError::new(ErrorKind::BodyDelimiterUnbalanced, Stage::Parameters, 2).message(),
        "parameters: delimiters are unbalanced"
    );
    assert_eq!(
        ParseError::new(ErrorKind::GenericsOrWhereClauseMalformed, Stage::WhereClause, 2).message(),
        "where clause: generics or where clause is malformed"
    );
}
