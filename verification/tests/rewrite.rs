use named_return::error::{ErrorKind, ParseError, Stage};
use named_return::named_return;
use named_return::token::{render, Delimiter, Token};
use proc_macro2::{Spacing, TokenStream, TokenTree};

fn flatten(stream: TokenStream, out: &mut Vec<Token>) {
    for tree in stream {
        match tree {
            TokenTree::Group(group) => {
                let delimiter = match group.delimiter() {
                    proc_macro2::Delimiter::Parenthesis => Delimiter::Parenthesis,
                    proc_macro2::Delimiter::Bracket => Delimiter::Bracket,
                    proc_macro2::Delimiter::Brace => Delimiter::Brace,
                    proc_macro2::Delimiter::None => {
                        flatten(group.stream(), out);
                        continue;
                    }
                };
                out.push(Token::open(delimiter));
                flatten(group.stream(), out);
                out.push(Token::close(delimiter));
            }
            TokenTree::Ident(ident) => out.push(Token::ident(&ident.to_string())),
            TokenTree::Punct(punct) => out.push(Token::punct(
                &punct.as_char().to_string(),
                punct.spacing() == Spacing::Joint,
            )),
            TokenTree::Literal(literal) => out.push(Token::literal(&literal.to_string())),
        }
    }
}

fn lex(source: &str) -> Vec<Token> {
    let stream: TokenStream = source.parse().unwrap();
    let mut out = Vec::new();
    flatten(stream, &mut out);
    out
}

fn rewrite(source: &str) -> Result<Vec<Token>, ParseError> {
    named_return(lex(source))
}

fn failure(source: &str) -> ParseError {
    rewrite(source).unwrap_err()
}

#[test]
fn no_return_clause_is_kept() {
    assert_eq!(rewrite("fn f() {}"), Ok(lex("fn f() {}")));
    assert_eq!(render(&rewrite("fn f() {}").unwrap()), "fn f ( ) { } ");
}

#[test]
fn empty_capture_list_is_dropped() {
    assert_eq!(rewrite("fn f() -> () {}"), Ok(lex("fn f() {}")));
    assert_eq!(render(&rewrite("fn f() -> () {}").unwrap()), "fn f ( ) { } ");
}

#[test]
fn one_capture_is_declared_alone() {
    assert_eq!(
        rewrite("fn f() -> (a: A) { a = A; a }"),
        Ok(lex("fn f() -> A { let a: A; a = A; a }"))
    );
    assert_eq!(
        render(&rewrite("fn f() -> (a: A) { a = A; a }").unwrap()),
        "fn f ( ) -> A { let a : A ; a = A ; a } "
    );
}

#[test]
fn two_captures_are_declared_as_a_tuple() {
    assert_eq!(
        rewrite("fn f() -> (a: A, b: B) { a = A; b = B; (a, b) }"),
        Ok(lex("fn f() -> (A, B) { let (a, b): (A, B); a = A; b = B; (a, b) }"))
    );
    assert_eq!(
        render(&rewrite("fn f() -> (a: A, b: B) { a = A; b = B; (a, b) }").unwrap()),
        "fn f ( ) -> ( A , B ) { let ( a , b ) : ( A , B ) ; a = A ; b = B ; ( a , b ) } "
    );
}

#[test]
fn three_captures_keep_their_order() {
    assert_eq!(
        rewrite("fn f() -> (a: A, b: B, c: C) { a = A; b = B; c = C; (a, b, c) }"),
        Ok(lex(
            "fn f() -> (A, B, C) { let (a, b, c): (A, B, C); a = A; b = B; c = C; (a, b, c) }"
        ))
    );
}

#[test]
fn rewriting_twice_changes_nothing_more() {
    for source in [
        "fn f() {}",
        "fn f() -> () {}",
        "fn f() -> (a: A) { a = A; a }",
        "fn f() -> (a: A, b: B) { a = A; b = B; (a, b) }",
        "fn f() -> (A, b: B) { b = B; (A, b) }",
        "pub fn f<T: Default>(x: T) -> (r: T) where T: Clone { r = x; r }",
    ] {
        let once = rewrite(source).unwrap();
        let twice = named_return(lex(&render(&once))).unwrap();
        assert_eq!(twice, once);
    }
}

#[test]
fn ordinary_items_are_kept() {
    for source in [
        "fn f() -> A { A }",
        "fn f() -> impl Iterator<Item = u8> { 0..3 }",
        "fn f(x: u8) -> Result<(), E> { Ok(()) }",
        "fn f<'a>(x: &'a str) -> &'a str { x }",
        "fn f() -> [u8; 3] { [0; 3] }",
        "pub(crate) unsafe fn f() -> *const u8 { core::ptr::null() }",
    ] {
        assert_eq!(rewrite(source), Ok(lex(source)));
    }
}

#[test]
fn tuple_of_types_is_kept() {
    assert_eq!(
        rewrite("fn f() -> (A, B) { (A, B) }"),
        Ok(lex("fn f() -> (A, B) { (A, B) }"))
    );
    assert_eq!(
        rewrite("fn f() -> (A, B,) { (A, B) }"),
        Ok(lex("fn f() -> (A, B,) { (A, B) }"))
    );
    assert_eq!(
        rewrite("fn f() -> (A,&'static B) { (A, &B) }"),
        Ok(lex("fn f() -> (A,&'static B) { (A, &B) }"))
    );
}

#[test]
fn one_type_in_parentheses_is_unwrapped() {
    assert_eq!(rewrite("fn f() -> (A) { A }"), Ok(lex("fn f() -> A { A }")));
    assert_eq!(rewrite("fn f() -> (A,) { A }"), Ok(lex("fn f() -> A { A }")));
    assert_eq!(
        rewrite("fn f() -> (a: A,) { a = A; a }"),
        Ok(lex("fn f() -> A { let a: A; a = A; a }"))
    );
}

#[test]
fn unnamed_items_are_returned_and_not_declared() {
    assert_eq!(
        rewrite("fn f() -> (a: A, B) { a = A; (a, B) }"),
        Ok(lex("fn f() -> (A, B) { let a: A; a = A; (a, B) }"))
    );
    assert_eq!(
        rewrite("fn f() -> (A, b: B, c: C) { b = B; c = C; (A, b, c) }"),
        Ok(lex("fn f() -> (A, B, C) { let (b, c): (B, C); b = B; c = C; (A, b, c) }"))
    );
    assert_eq!(
        rewrite("fn f() -> (a: A, B, c: C,) { a = A; c = C; (a, B, c) }"),
        Ok(lex("fn f() -> (A, B, C,) { let (a, c): (A, C); a = A; c = C; (a, B, c) }"))
    );
}

#[test]
fn types_with_commas_and_groups_are_one_item() {
    assert_eq!(
        rewrite("fn f() -> (m: HashMap<K, V>, v: Vec<(u8, u8)>) { m = x(); v = y(); (m, v) }"),
        Ok(lex(
            "fn f() -> (HashMap<K, V>, Vec<(u8, u8)>) { let (m, v): (HashMap<K, V>, Vec<(u8, u8)>); m = x(); v = y(); (m, v) }"
        ))
    );
    assert_eq!(
        rewrite("fn f() -> (g: fn(u8, u8) -> u8, n: [u8; 2]) { g = h; n = [0, 1]; (g, n) }"),
        Ok(lex(
            "fn f() -> (fn(u8, u8) -> u8, [u8; 2]) { let (g, n): (fn(u8, u8) -> u8, [u8; 2]); g = h; n = [0, 1]; (g, n) }"
        ))
    );
}

#[test]
fn patterns_may_be_more_than_a_name() {
    assert_eq!(
        rewrite("fn f() -> (mut a: A) { a = A; a }"),
        Ok(lex("fn f() -> A { let mut a: A; a = A; a }"))
    );
    assert_eq!(
        rewrite("fn f() -> ((x, y): (A, B)) { x = A; y = B; (x, y) }"),
        Ok(lex("fn f() -> (A, B) { let (x, y): (A, B); x = A; y = B; (x, y) }"))
    );
    assert_eq!(
        rewrite("fn f() -> ((x, y): (A, B), z: C) { x = A; y = B; z = C; ((x, y), z) }"),
        Ok(lex(
            "fn f() -> ((A, B), C) { let ((x, y), z): ((A, B), C); x = A; y = B; z = C; ((x, y), z) }"
        ))
    );
}

#[test]
fn everything_around_the_return_clause_is_kept() {
    assert_eq!(
        rewrite(
            "/// Doc.\n#[inline]\npub(crate) const unsafe extern \"C\" fn f<'a, T: Clone>(x: &'a T, (y, z): (u8, u8)) -> (r: T, s: u8) where T: Default, { r = x.clone(); s = y + z; (r, s) }"
        ),
        Ok(lex(
            "/// Doc.\n#[inline]\npub(crate) const unsafe extern \"C\" fn f<'a, T: Clone>(x: &'a T, (y, z): (u8, u8)) -> (T, u8) where T: Default, { let (r, s): (T, u8); r = x.clone(); s = y + z; (r, s) }"
        ))
    );
}

#[test]
fn qualifiers_are_read_in_their_order() {
    assert_eq!(
        rewrite("pub unsafe async fn f() -> (a: A) { a = A; a }"),
        Ok(lex("pub unsafe async fn f() -> A { let a: A; a = A; a }"))
    );
    assert_eq!(
        failure("pub async unsafe fn f() {}"),
        ParseError { kind: ErrorKind::LexicalMismatch, stage: Stage::FnKeyword, position: 2 }
    );
}

#[test]
fn methods_and_variadic_parameters_are_kept() {
    assert_eq!(
        rewrite("fn f(&mut self, other: Self) -> (r: bool) { r = true; r }"),
        Ok(lex("fn f(&mut self, other: Self) -> bool { let r: bool; r = true; r }"))
    );
    assert_eq!(
        rewrite("unsafe extern \"C\" fn f(fmt: *const u8, args: ...) -> (n: i32) { n = 0; n }"),
        Ok(lex("unsafe extern \"C\" fn f(fmt: *const u8, args: ...) -> i32 { let n: i32; n = 0; n }"))
    );
}

#[test]
fn signatures_of_many_shapes_are_read() {
    for (source, expected) in [
        (
            "fn f() -> ! { loop {} }",
            "fn f() -> ! { loop {} }",
        ),
        (
            "fn f<T>(x: [T; 4], y: *const [u8; N]) -> (n: [T; 4]) { n = x; n }",
            "fn f<T>(x: [T; 4], y: *const [u8; N]) -> [T; 4] { let n: [T; 4]; n = x; n }",
        ),
        (
            "fn f<F>(g: F) -> (r: u8) where for<'a> F: Fn(&'a u8) -> u8 { r = g(&1); r }",
            "fn f<F>(g: F) -> u8 where for<'a> F: Fn(&'a u8) -> u8 { let r: u8; r = g(&1); r }",
        ),
        (
            "#[cfg(all(unix, not(test)))] #[doc = \"Two words.\"] fn f(x: impl Into<u8>, y: &dyn Send) -> (a: u8, b: Box<dyn Fn() -> u8>) { a = x.into(); b = Box::new(|| 1); (a, b) }",
            "#[cfg(all(unix, not(test)))] #[doc = \"Two words.\"] fn f(x: impl Into<u8>, y: &dyn Send) -> (u8, Box<dyn Fn() -> u8>) { let (a, b): (u8, Box<dyn Fn() -> u8>); a = x.into(); b = Box::new(|| 1); (a, b) }",
        ),
        (
            "pub(in crate::a) fn f(self: Box<Self>, _: u8) -> (_a: <T as Tr>::Out, _b: &'static str) { todo!() }",
            "pub(in crate::a) fn f(self: Box<Self>, _: u8) -> (<T as Tr>::Out, &'static str) { let (_a, _b): (<T as Tr>::Out, &'static str); todo!() }",
        ),
        (
            "fn f() -> (a: u8) { fn g() -> (b: u8) { b = 1; b } a = g(); a }",
            "fn f() -> u8 { let a: u8; fn g() -> (b: u8) { b = 1; b } a = g(); a }",
        ),
    ] {
        assert_eq!(rewrite(source), Ok(lex(expected)), "{}", source);
    }
}

#[test]
fn long_items_are_rewritten() {
    let mut body = String::new();
    for k in 0..2000 {
        body.push_str(&format!("a = a.wrapping_add(({} + b[{}]) as u8); ", k, k % 7));
    }
    let source = format!("fn f(b: &[u32]) -> (a: u8) {{ a = 0; {} a }}", body);
    let expected = format!("fn f(b: &[u32]) -> u8 {{ let a: u8; a = 0; {} a }}", body);
    assert_eq!(rewrite(&source), Ok(lex(&expected)));
}

#[test]
fn trait_object_after_bound_lifetimes_is_refused_at_its_lifetime() {
    for (source, position) in [
        ("fn f() -> for<'a> dyn 'b + T {}", 12),
        ("fn f(x: for<'a> dyn 'b + T) {}", 11),
        ("fn f(<for<'a> dyn 'b + T>::X: u8) {}", 10),
        ("fn f() where Vec<for<'a> dyn 'b + T>: X {}", 13),
        ("fn f<T: Tr<for<'a> dyn 'b + T>>() {}", 13),
        ("fn f() -> (a: for<'a> dyn 'b + T) { a }", 15),
        ("fn f() -> (a: A, for<> dyn 'b + T) { a }", 15),
        ("fn f(x: [u8; { let y: Box<for<'a> dyn 'b + T>; 4 }]) {}", 20),
    ] {
        assert_eq!(
            failure(source),
            ParseError { kind: ErrorKind::LexicalMismatch, stage: Stage::TraitObject, position },
            "{}",
            source
        );
    }
    assert_eq!(
        failure("fn f() -> for<'a> dyn 'b + T {}").message(),
        "trait object: expected token or delimiter is absent"
    );
}

#[test]
fn earlier_failures_come_before_the_refusal() {
    assert_eq!(
        failure("f(x: for<'a> dyn 'b + T) {}"),
        ParseError { kind: ErrorKind::LexicalMismatch, stage: Stage::FnKeyword, position: 0 }
    );
    assert_eq!(
        failure("fn (x: for<'a> dyn 'b + T) {}"),
        ParseError { kind: ErrorKind::LexicalMismatch, stage: Stage::Ident, position: 1 }
    );
    let mut open = lex("fn f(x: for<'a> dyn 'b + T) {}");
    open.pop();
    assert_eq!(
        named_return(open),
        Err(ParseError {
            kind: ErrorKind::BodyDelimiterUnbalanced,
            stage: Stage::Nesting,
            position: 16,
        })
    );
}

#[test]
fn trait_objects_of_other_shapes_are_read() {
    for (source, expected) in [
        (
            "fn f(x: &'a mut dyn Tr, y: Box<dyn Fn() + 'a>) -> (r: *const [u8; 4]) { r }",
            "fn f(x: &'a mut dyn Tr, y: Box<dyn Fn() + 'a>) -> *const [u8; 4] { let r: *const [u8; 4]; r }",
        ),
        (
            "fn f(x: Box<dyn 'a + Tr>) -> (r: &'a dyn 'b + Tr) { r }",
            "fn f(x: Box<dyn 'a + Tr>) -> &'a dyn 'b + Tr { let r: &'a dyn 'b + Tr; r }",
        ),
        (
            "fn f() -> dyn 'a + Tr {}",
            "fn f() -> dyn 'a + Tr {}",
        ),
        (
            "fn f(x: Box<for<'a> dyn \u{c9}toile<'a>>) -> (r: u8) { r }",
            "fn f(x: Box<for<'a> dyn \u{c9}toile<'a>>) -> u8 { let r: u8; r }",
        ),
        (
            "fn f(x: Box<for<'a> dyn Fn(&'a u8) + 'b>) -> (r: Box<for<'a> dyn for<'b> Tr<'a, 'b>>) { r }",
            "fn f(x: Box<for<'a> dyn Fn(&'a u8) + 'b>) -> Box<for<'a> dyn for<'b> Tr<'a, 'b>> { let r: Box<for<'a> dyn for<'b> Tr<'a, 'b>> ; r }",
        ),
        (
            "fn f(x: Vec<A>, dyn_: u8, mydyn: &'a u8) -> (r: for<'a> fn(&'a u8)) { r }",
            "fn f(x: Vec<A>, dyn_: u8, mydyn: &'a u8) -> for<'a> fn(&'a u8) { let r: for<'a> fn(&'a u8); r }",
        ),
    ] {
        assert_eq!(rewrite(source), Ok(lex(expected)), "{}", source);
    }
}

#[test]
fn signatures_with_braces_literals_and_constants_are_read() {
    for (source, expected) in [
        (
            "fn f<const N: usize>(x: [u8; N]) -> (n: usize) { n = N; n }",
            "fn f<const N: usize>(x: [u8; N]) -> usize { let n: usize; n = N; n }",
        ),
        (
            "fn f(x: [u8; N + 1]) {}",
            "fn f(x: [u8; N + 1]) {}",
        ),
        (
            "fn f(x: [u8; { 1 }]) -> (a: [u8; { 2 * N }], b: u8) { (a, b) }",
            "fn f(x: [u8; { 1 }]) -> ([u8; { 2 * N }], u8) { let (a, b): ([u8; { 2 * N }], u8); (a, b) }",
        ),
        (
            "fn f(S { a, b }: S) -> (c: u8) { c = a + b; c }",
            "fn f(S { a, b }: S) -> u8 { let c: u8; c = a + b; c }",
        ),
        (
            "fn f() -> (a: Foo<{ 1 }>) { a }",
            "fn f() -> Foo<{ 1 }> { let a: Foo<{ 1 }> ; a }",
        ),
        (
            "fn f(x: extern \"C\" fn()) {}",
            "fn f(x: extern \"C\" fn()) {}",
        ),
        (
            "fn f<#[a = \"b\"] T>(x: u8) -> (r: [u8; \"ab\".len()]) { r }",
            "fn f<#[a = \"b\"] T>(x: u8) -> [u8; \"ab\".len()] { let r: [u8; \"ab\".len()]; r }",
        ),
        (
            "fn f() -> (S { a, b }: S, c: m! { x }) { todo!() }",
            "fn f() -> (S, m! { x }) { let (S { a, b }, c): (S, m! { x }); todo!() }",
        ),
    ] {
        assert_eq!(rewrite(source), Ok(lex(expected)), "{}", source);
    }
}

#[test]
fn body_is_not_read() {
    assert_eq!(
        rewrite("fn f() -> (a: A) { this is ( not [ a ] ) statement ; ; }"),
        Ok(lex("fn f() -> A { let a: A; this is ( not [ a ] ) statement ; ; }"))
    );
}

#[test]
fn body_may_hold_what_the_host_grammar_cannot_read() {
    let strange = Token::literal("c\"text\"");
    let mut tokens = lex("fn f() -> (a: A, b: B) { }");
    let close = tokens.pop().unwrap();
    tokens.push(strange.clone());
    tokens.push(Token { kind: named_return::token::TokenKind::Ident, text: "two words".to_string(), joint: true });
    tokens.push(close);
    let mut expected = lex("fn f() -> (A, B) { let (a, b): (A, B); }");
    let close = expected.pop().unwrap();
    expected.push(strange);
    expected.push(Token { kind: named_return::token::TokenKind::Ident, text: "two words".to_string(), joint: true });
    expected.push(close);
    assert_eq!(named_return(tokens), Ok(expected));
}

#[test]
fn same_signature_is_rewritten_alike_whatever_the_body() {
    let one = rewrite("fn f(x: u8) -> (a: A, B) where A: Copy { a = g(x); (a, B) }").unwrap();
    let other = rewrite("fn f(x: u8) -> (a: A, B) where A: Copy { loop {} }").unwrap();
    let head = lex("fn f(x: u8) -> (A, B) where A: Copy { let a: A; }").len() - 1;
    assert_eq!(one[..head], other[..head]);
    assert_eq!(one[head..], lex("{ a = g(x); (a, B) }")[1..]);
    assert_eq!(other[head..], lex("{ loop {} }")[1..]);
}

#[test]
fn missing_function_keyword_is_a_lexical_mismatch() {
    assert_eq!(
        failure("f() {}"),
        ParseError { kind: ErrorKind::LexicalMismatch, stage: Stage::FnKeyword, position: 0 }
    );
    assert_eq!(
        named_return(Vec::new()),
        Err(ParseError { kind: ErrorKind::LexicalMismatch, stage: Stage::FnKeyword, position: 0 })
    );
}

#[test]
fn keyword_as_name_is_a_lexical_mismatch() {
    assert_eq!(
        failure("fn match() {}"),
        ParseError { kind: ErrorKind::LexicalMismatch, stage: Stage::Ident, position: 1 }
    );
    assert_eq!(
        failure("fn 1() {}"),
        ParseError { kind: ErrorKind::LexicalMismatch, stage: Stage::Ident, position: 1 }
    );
}

#[test]
fn missing_parameters_are_a_lexical_mismatch() {
    assert_eq!(
        failure("fn f {}"),
        ParseError { kind: ErrorKind::LexicalMismatch, stage: Stage::Parameters, position: 2 }
    );
    assert_eq!(
        failure("fn f(a: A b: B) {}"),
        ParseError { kind: ErrorKind::LexicalMismatch, stage: Stage::Parameters, position: 6 }
    );
    assert_eq!(
        failure("fn f(a: A, 5) {}"),
        ParseError { kind: ErrorKind::LexicalMismatch, stage: Stage::Parameters, position: 7 }
    );
}

#[test]
fn arrow_without_type_is_a_lexical_mismatch() {
    assert_eq!(
        failure("fn f() -> {}"),
        ParseError { kind: ErrorKind::LexicalMismatch, stage: Stage::ReturnType, position: 6 }
    );
}

#[test]
fn missing_comma_between_captures_is_a_lexical_mismatch() {
    assert_eq!(
        failure("fn f() -> (a: A b: B) {}"),
        ParseError { kind: ErrorKind::LexicalMismatch, stage: Stage::CaptureList, position: 10 }
    );
}

#[test]
fn missing_or_followed_body_is_a_lexical_mismatch() {
    assert_eq!(
        failure("fn f()"),
        ParseError { kind: ErrorKind::LexicalMismatch, stage: Stage::Body, position: 4 }
    );
    assert_eq!(
        failure("fn f() x {}"),
        ParseError { kind: ErrorKind::LexicalMismatch, stage: Stage::Body, position: 4 }
    );
    assert_eq!(
        failure("fn f() {} fn"),
        ParseError { kind: ErrorKind::LexicalMismatch, stage: Stage::Body, position: 6 }
    );
    assert_eq!(
        failure("fn f() -> (a: A) {} {}"),
        ParseError { kind: ErrorKind::LexicalMismatch, stage: Stage::Body, position: 13 }
    );
    assert_eq!(
        failure("fn f() -> (a: A) + Send {}"),
        ParseError { kind: ErrorKind::LexicalMismatch, stage: Stage::Body, position: 11 }
    );
}

#[test]
fn item_that_is_no_capture_is_malformed() {
    assert_eq!(
        failure("fn f() -> (a: A, 5) {}"),
        ParseError { kind: ErrorKind::CaptureItemMalformed, stage: Stage::CaptureItem, position: 11 }
    );
    assert_eq!(
        failure("fn f() -> (=) {}"),
        ParseError { kind: ErrorKind::CaptureItemMalformed, stage: Stage::CaptureItem, position: 7 }
    );
}

#[test]
fn bad_generics_are_reported() {
    assert_eq!(
        failure("fn f<T() {}"),
        ParseError {
            kind: ErrorKind::GenericsOrWhereClauseMalformed,
            stage: Stage::Generics,
            position: 2,
        }
    );
}

#[test]
fn bad_where_clause_is_reported() {
    assert_eq!(
        failure("fn f() -> (a: A) where 5: Copy {}"),
        ParseError {
            kind: ErrorKind::GenericsOrWhereClauseMalformed,
            stage: Stage::WhereClause,
            position: 11,
        }
    );
}

#[test]
fn brackets_that_do_not_nest_are_reported() {
    let mut tokens = lex("fn f() -> (a: A) { a }");
    tokens.remove(10);
    assert_eq!(
        named_return(tokens),
        Err(ParseError {
            kind: ErrorKind::BodyDelimiterUnbalanced,
            stage: Stage::Nesting,
            position: 6,
        })
    );
    let mut tokens = lex("fn f() {}");
    tokens.insert(5, Token::open(Delimiter::Parenthesis));
    assert_eq!(
        named_return(tokens),
        Err(ParseError {
            kind: ErrorKind::BodyDelimiterUnbalanced,
            stage: Stage::Nesting,
            position: 4,
        })
    );
    let mut tokens = lex("fn f() {}");
    tokens.insert(4, Token::close(Delimiter::Bracket));
    assert_eq!(
        named_return(tokens),
        Err(ParseError {
            kind: ErrorKind::BodyDelimiterUnbalanced,
            stage: Stage::Nesting,
            position: 4,
        })
    );
}

#[test]
fn bad_attribute_is_a_lexical_mismatch() {
    assert_eq!(
        failure("#[5] fn f() {}"),
        ParseError { kind: ErrorKind::LexicalMismatch, stage: Stage::Attributes, position: 0 }
    );
    assert_eq!(
        failure("pub(in 5) fn f() {}"),
        ParseError { kind: ErrorKind::LexicalMismatch, stage: Stage::Visibility, position: 0 }
    );
}

#[test]
fn messages_name_the_part_and_the_fault() {
    assert_eq!(
        failure("fn f() -> (=) {}").message(),
        "capture item: capture item is neither `pattern: type` nor a type"
    );
    assert_eq!(failure("f() {}").message(), "fn keyword: expected token or delimiter is absent");
    assert_eq!(failure("fn f<T() {}").message(), "generics: generics or where clause is malformed");
    let mut tokens = lex("fn f() {}");
    tokens.pop();
    assert_eq!(named_return(tokens).unwrap_err().message(), "nesting: delimiters are unbalanced");
}
