// Tokens of any kind and text, in any order, are rewritten or refused: no
// input makes the library or the host grammar behind it give up.

use named_return::named_return;
use named_return::token::{Delimiter, Token, TokenKind};
use proc_macro2::{Spacing, TokenStream, TokenTree};

fn next(state: &mut u64) -> u64 {
    *state = state.wrapping_mul(6364136223846793005).wrapping_add(1442695040888963407);
    *state >> 33
}

fn vocabulary() -> Vec<Token> {
    let mut v = Vec::new();
    for w in ["fn", "f", "pub", "crate", "const", "unsafe", "async", "extern", "where", "a", "A", "T", "mut", "self", "Self", "impl", "dyn", "for", "in", "let", "_", "r#fn", "", "a b", "'", "// c", "/* x", "\"", "0x", "é"] {
        v.push(Token::ident(w));
    }
    for p in ["-", ">", "<", ":", ",", ".", "#", "!", "&", "'", "=", ";", "+", "*", "?", "$", "@", "|", "~", "/", "", "ab", "\\"] {
        v.push(Token::punct(p, false));
        v.push(Token::punct(p, true));
    }
    for l in ["1", "\"C\"", "'a'", "1.5", "b\"x\"", "r\"x\"", "-1", "\"", "'", "", "0xffffffffffffffffffffffffffffffffffff", "1e999", "c\"x\""] {
        v.push(Token::literal(l));
    }
    for d in [Delimiter::Parenthesis, Delimiter::Bracket, Delimiter::Brace] {
        v.push(Token::open(d));
        v.push(Token::close(d));
        v.push(Token { kind: TokenKind::Open(d), text: "x".to_string(), joint: true });
    }
    v
}

#[test]
fn random_tokens_are_rewritten_or_refused() {
    let vocabulary = vocabulary();
    let mut state = 12345u64;
    for _ in 0..4000 {
        let len = (next(&mut state) % 24) as usize;
        let mut tokens = Vec::new();
        for _ in 0..len {
            tokens.push(vocabulary[(next(&mut state) as usize) % vocabulary.len()].clone());
        }
        let input = tokens.clone();
        match named_return(tokens) {
            Ok(out) => assert!(out.len() + 4 >= input.len()),
            Err(error) => assert!(error.position <= input.len()),
        }
    }
}

fn balanced(state: &mut u64, vocabulary: &Vec<Token>, depth: usize, out: &mut Vec<Token>) {
    let n = next(state) % 5;
    for _ in 0..n {
        let pick = next(state) % 10;
        if pick < 3 && depth < 4 {
            let d = match next(state) % 3 {
                0 => Delimiter::Parenthesis,
                1 => Delimiter::Bracket,
                _ => Delimiter::Brace,
            };
            out.push(Token::open(d));
            balanced(state, vocabulary, depth + 1, out);
            out.push(Token::close(d));
        } else {
            let token = vocabulary[(next(state) as usize) % vocabulary.len()].clone();
            match token.kind {
                TokenKind::Open(_) | TokenKind::Close(_) => {}
                _ => out.push(token),
            }
        }
    }
}

#[test]
fn random_items_are_rewritten_or_refused() {
    let vocabulary = vocabulary();
    let mut state = 99u64;
    let mut ok = 0;
    for _ in 0..3000 {
        let mut tokens = vec![Token::ident("fn"), Token::ident("f")];
        tokens.push(Token::open(Delimiter::Parenthesis));
        balanced(&mut state, &vocabulary, 1, &mut tokens);
        tokens.push(Token::close(Delimiter::Parenthesis));
        if next(&mut state) % 4 != 0 {
            tokens.push(Token::punct("-", true));
            tokens.push(Token::punct(">", false));
            if next(&mut state) % 2 == 0 {
                tokens.push(Token::open(Delimiter::Parenthesis));
                balanced(&mut state, &vocabulary, 1, &mut tokens);
                tokens.push(Token::close(Delimiter::Parenthesis));
            } else {
                balanced(&mut state, &vocabulary, 1, &mut tokens);
            }
        }
        tokens.push(Token::open(Delimiter::Brace));
        balanced(&mut state, &vocabulary, 1, &mut tokens);
        tokens.push(Token::close(Delimiter::Brace));
        let input = tokens.clone();
        match named_return(tokens) {
            Ok(out) => {
                ok += 1;
                assert!(out.len() + 4 >= input.len());
            }
            Err(error) => assert!(error.position <= input.len()),
        }
    }
    assert!(ok > 0);
}

fn flatten(stream: TokenStream, out: &mut Vec<Token>) {
    for tree in stream {
        match tree {
            TokenTree::Group(group) => {
                let delimiter = match group.delimiter() {
                    proc_macro2::Delimiter::Parenthesis => Delimiter::Parenthesis,
                    proc_macro2::Delimiter::Bracket => Delimiter::Bracket,
                    proc_macro2::Delimiter::Brace => Delimiter::Brace,
                    proc_macro2::Delimiter::None => {
                        flatten(group.stream(), out);
                        continue;
                    }
                };
                out.push(Token::open(delimiter));
                flatten(group.stream(), out);
                out.push(Token::close(delimiter));
            }
            TokenTree::Ident(ident) => out.push(Token::ident(&ident.to_string())),
            TokenTree::Punct(punct) => out.push(Token::punct(
                &punct.as_char().to_string(),
                punct.spacing() == Spacing::Joint,
            )),
            TokenTree::Literal(literal) => out.push(Token::literal(&literal.to_string())),
        }
    }
}

const WORDS: [&str; 96] = [
    "for", "<", ">", "'a", "'b", "dyn", "+", "T", "U", "Tr", "Fn", "fn", "impl", "?", "Sized",
    "&", "*", "mut", "const", "unsafe", "extern", "\"C\"", "::", ":", ",", ";", "=", "->", "=>",
    "!", "_", "..", "...", "..=", "|", "||", "&&", "#", "self", "Self", "super", "crate", "as",
    "where", "let", "if", "else", "match", "loop", "while", "in", "break", "continue", "return",
    "move", "box", "ref", "struct", "enum", "union", "trait", "type", "static", "use", "mod",
    "pub", "macro_rules", "macro", "async", "await", "try", "yield", "do", "catch", "default",
    "existential", "auto", "x", "y", "0", "1", "1.5", "1u8", "'c'", "\"s\"", "b'c'", "true",
    ".", "-", "/", "%", "^", "@", "$", "<<", ">>=",
];

fn words(state: &mut u64, depth: usize, out: &mut String) {
    let n = next(state) % 7;
    for _ in 0..n {
        let pick = next(state) % 10;
        if pick < 3 && depth < 4 {
            let (open, close) = match next(state) % 3 {
                0 => ("(", ")"),
                1 => ("[", "]"),
                _ => ("{", "}"),
            };
            out.push_str(open);
            words(state, depth + 1, out);
            out.push_str(close);
        } else {
            out.push_str(WORDS[(next(state) as usize) % WORDS.len()]);
        }
        out.push(' ');
    }
}

fn rewritten_or_refused(source: &str) -> bool {
    let stream: TokenStream = match source.parse() {
        Ok(stream) => stream,
        Err(_) => return false,
    };
    let mut tokens = Vec::new();
    flatten(stream, &mut tokens);
    let len = tokens.len();
    match named_return(tokens) {
        Ok(out) => {
            assert!(out.len() + 4 >= len, "{}", source);
            true
        }
        Err(error) => {
            assert!(error.position <= len, "{}", source);
            false
        }
    }
}

#[test]
fn random_types_are_read_or_refused() {
    let mut state = 7u64;
    let mut ok = 0;
    for round in 0..6000 {
        let mut text = String::new();
        words(&mut state, 1, &mut text);
        let source = match round % 4 {
            0 => format!("fn f(x: {}) {{}}", text),
            1 => format!("fn f() -> {} {{}}", text),
            2 => format!("fn f() -> (a: {}, B) {{}}", text),
            _ => format!("fn f<{}>() where {} {{}}", text, text),
        };
        if rewritten_or_refused(&source) {
            ok += 1;
        }
    }
    assert!(ok > 0);
}

#[test]
fn random_trait_objects_are_read_or_refused() {
    let parts = ["for<'a>", "for<>", "dyn", "'b", "+", "T", "?Sized", "(", ")", "<", ">", "&", ",", "Fn(A) -> B", "impl"];
    let mut state = 11u64;
    let mut refused = 0;
    for round in 0..6000 {
        let mut text = String::new();
        let n = 1 + next(&mut state) % 7;
        for _ in 0..n {
            text.push_str(parts[(next(&mut state) as usize) % parts.len()]);
            text.push(' ');
        }
        let source = match round % 3 {
            0 => format!("fn f(x: {}) {{}}", text),
            1 => format!("fn f() -> (a: {}) {{}}", text),
            _ => format!("fn f(x: [u8; {{ let y: {}; 0 }}]) {{}}", text),
        };
        if !rewritten_or_refused(&source) {
            refused += 1;
        }
    }
    assert!(refused > 0);
}

#[test]
fn random_expressions_in_a_signature_are_read_or_refused() {
    let mut state = 13u64;
    let mut ok = 0;
    for round in 0..6000 {
        let mut text = String::new();
        words(&mut state, 2, &mut text);
        let source = match round % 3 {
            0 => format!("fn f(x: [u8; {}]) {{}}", text),
            1 => format!("fn f(x: [u8; {{ {} }}]) -> (a: A) {{}}", text),
            _ => format!("fn f(x: Foo<{{ {} }}>) {{}}", text),
        };
        if rewritten_or_refused(&source) {
            ok += 1;
        }
    }
    assert!(ok > 0);
}
