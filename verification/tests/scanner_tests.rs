//! End-to-end tests of the scanner: concrete inputs against the token
//! sequences, positions and diagnostics the library promises.

use lox_lang::scanner::Scanner;
use lox_lang::token::{Diagnostic, Token, TokenData};

fn scan_all(src: &[u8]) -> (Vec<TokenData<'_>>, Vec<Diagnostic>) {
    let mut scanner = Scanner::new(src);
    let tokens = scanner.scan().clone();
    let diagnostics = scanner.diagnostics().clone();
    (tokens, diagnostics)
}

fn kinds(tokens: &[TokenData<'_>]) -> Vec<Token> {
    tokens.iter().map(|t| t.token()).collect()
}

#[test]
fn parens_and_arithmetic() {
    let (toks, diags) = scan_all(b"(1+2)");
    assert!(diags.is_empty());
    assert_eq!(
        kinds(&toks),
        vec![
            Token::LeftParen,
            Token::Number,
            Token::Plus,
            Token::Number,
            Token::RightParen,
            Token::EOF,
        ]
    );
    let lexemes: Vec<&[u8]> = toks.iter().map(|t| t.lexeme()).collect();
    assert_eq!(lexemes, vec![b"(".as_slice(), b"1", b"+", b"2", b")", b""]);
    for t in &toks {
        assert_eq!(t.line(), 1);
    }
}

#[test]
fn var_statement() {
    let (toks, diags) = scan_all(b"var x = 10;\n");
    assert!(diags.is_empty());
    assert_eq!(
        kinds(&toks),
        vec![
            Token::Var,
            Token::Identifier,
            Token::Equal,
            Token::Number,
            Token::Semicolon,
            Token::EOF,
        ]
    );
    let lexemes: Vec<&[u8]> = toks.iter().map(|t| t.lexeme()).collect();
    assert_eq!(lexemes, vec![b"var".as_slice(), b"x", b"=", b"10", b";", b""]);
    assert_eq!(toks[5].line(), 2);
    assert_eq!(toks[5].column(), 0);
}

#[test]
fn less_equal_lookahead() {
    let (toks, diags) = scan_all(b"<= < <");
    assert!(diags.is_empty());
    assert_eq!(
        kinds(&toks),
        vec![Token::LessEqual, Token::Less, Token::Less, Token::EOF]
    );
    assert_eq!(toks[0].lexeme(), b"<=".as_slice());
    assert_eq!(toks[1].lexeme(), b"<".as_slice());
    assert_eq!(toks[2].lexeme(), b"<".as_slice());
}

#[test]
fn two_char_operators() {
    let (toks, diags) = scan_all(b"!= == >= <= ! = > <");
    assert!(diags.is_empty());
    assert_eq!(
        kinds(&toks),
        vec![
            Token::BangEqual,
            Token::EqualEqual,
            Token::GreaterEqual,
            Token::LessEqual,
            Token::Bang,
            Token::Equal,
            Token::Greater,
            Token::Less,
            Token::EOF,
        ]
    );
}

#[test]
fn string_literal() {
    let (toks, diags) = scan_all(b"\"abc\"");
    assert!(diags.is_empty());
    assert_eq!(kinds(&toks), vec![Token::String, Token::EOF]);
    assert_eq!(toks[0].lexeme(), b"\"abc\"".as_slice());
    assert_eq!(toks[0].offset(), 0);
    assert_eq!(toks[0].line(), 1);
    assert_eq!(toks[0].column(), 0);
}

#[test]
fn unterminated_string() {
    let (toks, diags) = scan_all(b"\"unterminated");
    assert_eq!(kinds(&toks), vec![Token::EOF]);
    assert_eq!(diags, vec![Diagnostic::UnterminatedString { line: 1 }]);
}

#[test]
fn unterminated_string_on_later_line() {
    let (toks, diags) = scan_all(b"\n\"abc");
    assert_eq!(kinds(&toks), vec![Token::EOF]);
    assert_eq!(diags, vec![Diagnostic::UnterminatedString { line: 2 }]);
}

#[test]
fn escaped_quote_stays_inside_string() {
    let (toks, diags) = scan_all(b"\"a\\\"b\"");
    assert!(diags.is_empty());
    assert_eq!(kinds(&toks), vec![Token::String, Token::EOF]);
    assert_eq!(toks[0].lexeme(), b"\"a\\\"b\"".as_slice());
}

#[test]
fn trailing_backslash_is_unterminated() {
    let (toks, diags) = scan_all(b"\"abc\\");
    assert_eq!(kinds(&toks), vec![Token::EOF]);
    assert_eq!(diags, vec![Diagnostic::UnterminatedString { line: 1 }]);
}

#[test]
fn string_with_line_break_counts_lines() {
    let (toks, diags) = scan_all(b"\"a\nb\" x");
    assert!(diags.is_empty());
    assert_eq!(kinds(&toks), vec![Token::String, Token::Identifier, Token::EOF]);
    assert_eq!(toks[0].line(), 1);
    assert_eq!(toks[0].column(), 0);
    assert_eq!(toks[1].lexeme(), b"x".as_slice());
    assert_eq!(toks[1].line(), 2);
    assert_eq!(toks[1].column(), 3);
}

#[test]
fn number_with_trailing_dot() {
    let (toks, diags) = scan_all(b"3.14 3.");
    assert!(diags.is_empty());
    assert_eq!(kinds(&toks), vec![Token::Number, Token::Number, Token::EOF]);
    assert_eq!(toks[0].lexeme(), b"3.14".as_slice());
    assert_eq!(toks[1].lexeme(), b"3.".as_slice());
}

#[test]
fn keyword_is_whole_lexeme_not_prefix() {
    let (toks, diags) = scan_all(b"for forest");
    assert!(diags.is_empty());
    assert_eq!(kinds(&toks), vec![Token::For, Token::Identifier, Token::EOF]);
    assert_eq!(toks[0].lexeme(), b"for".as_slice());
    assert_eq!(toks[1].lexeme(), b"forest".as_slice());
}

#[test]
fn all_keywords_classified() {
    let cases: Vec<(&[u8], Token)> = vec![
        (b"and", Token::And),
        (b"or", Token::Or),
        (b"class", Token::Class),
        (b"this", Token::This),
        (b"super", Token::Super),
        (b"for", Token::For),
        (b"while", Token::While),
        (b"if", Token::If),
        (b"else", Token::Else),
        (b"fun", Token::Fun),
        (b"return", Token::Return),
        (b"print", Token::Print),
        (b"var", Token::Var),
        (b"nil", Token::Nil),
        (b"true", Token::True),
        (b"false", Token::False),
    ];
    for (src, kind) in cases {
        let (toks, diags) = scan_all(src);
        assert!(diags.is_empty());
        assert_eq!(kinds(&toks), vec![kind, Token::EOF]);
        assert_eq!(toks[0].lexeme(), src);
    }
}

#[test]
fn identifier_with_digits_and_underscore() {
    let (toks, diags) = scan_all(b"x_1y");
    assert!(diags.is_empty());
    assert_eq!(kinds(&toks), vec![Token::Identifier, Token::EOF]);
    assert_eq!(toks[0].lexeme(), b"x_1y".as_slice());
}

#[test]
fn comment_suppression() {
    let (toks, diags) = scan_all(b"// note\nvar");
    assert!(diags.is_empty());
    assert_eq!(kinds(&toks), vec![Token::Var, Token::EOF]);
    assert_eq!(toks[0].lexeme(), b"var".as_slice());
    assert_eq!(toks[0].line(), 2);
    assert_eq!(toks[0].column(), 0);
}

#[test]
fn comment_at_end_of_input() {
    let (toks, diags) = scan_all(b"// x");
    assert!(diags.is_empty());
    assert_eq!(kinds(&toks), vec![Token::EOF]);
    assert_eq!(toks[0].line(), 1);
}

#[test]
fn slash_is_division() {
    let (toks, diags) = scan_all(b"1/2");
    assert!(diags.is_empty());
    assert_eq!(kinds(&toks), vec![Token::Number, Token::Slash, Token::Number, Token::EOF]);
}

#[test]
fn structural_punctuation() {
    let (toks, diags) = scan_all(b"{}.,;-+*");
    assert!(diags.is_empty());
    assert_eq!(
        kinds(&toks),
        vec![
            Token::LeftBrace,
            Token::RightBrace,
            Token::Dot,
            Token::Comma,
            Token::Semicolon,
            Token::Minus,
            Token::Plus,
            Token::Star,
            Token::EOF,
        ]
    );
}

#[test]
fn empty_input_gives_only_end_of_input() {
    let (toks, diags) = scan_all(b"");
    assert!(diags.is_empty());
    assert_eq!(kinds(&toks), vec![Token::EOF]);
    assert_eq!(toks[0].lexeme(), b"".as_slice());
    assert_eq!(toks[0].offset(), 0);
    assert_eq!(toks[0].line(), 1);
    assert_eq!(toks[0].column(), 0);
}

#[test]
fn unexpected_character_is_reported_and_scan_goes_on() {
    let (toks, diags) = scan_all(b"@ (");
    assert_eq!(kinds(&toks), vec![Token::LeftParen, Token::EOF]);
    assert_eq!(
        diags,
        vec![Diagnostic::UnexpectedCharacter { character: b'@', line: 1, column: 0 }]
    );
    assert_eq!(toks[0].column(), 2);
}

#[test]
fn unexpected_character_position() {
    let (toks, diags) = scan_all(b"var\n  #");
    assert_eq!(kinds(&toks), vec![Token::Var, Token::EOF]);
    assert_eq!(
        diags,
        vec![Diagnostic::UnexpectedCharacter { character: b'#', line: 2, column: 2 }]
    );
}

#[test]
fn whitespace_is_skipped() {
    let (toks, diags) = scan_all(b" \t\r x");
    assert!(diags.is_empty());
    assert_eq!(kinds(&toks), vec![Token::Identifier, Token::EOF]);
    assert_eq!(toks[0].offset(), 4);
    assert_eq!(toks[0].column(), 4);
    assert_eq!(toks[0].line(), 1);
}

#[test]
fn scanning_twice_is_deterministic() {
    let src = b"var x = 10; // set\nprint x <= \"y\";";
    let (toks1, diags1) = scan_all(src);
    let (toks2, diags2) = scan_all(src);
    assert_eq!(toks1.len(), toks2.len());
    for (a, b) in toks1.iter().zip(toks2.iter()) {
        assert_eq!(a.token(), b.token());
        assert_eq!(a.lexeme(), b.lexeme());
        assert_eq!(a.offset(), b.offset());
        assert_eq!(a.line(), b.line());
        assert_eq!(a.column(), b.column());
    }
    assert_eq!(diags1, diags2);
}

#[test]
fn lexemes_are_exact_spans_of_the_source() {
    let src = b"fun f(a, b) { return a.x + \"s\"; } // tail";
    let (toks, _diags) = scan_all(src);
    for t in &toks {
        let lo = t.offset();
        let hi = lo + t.lexeme().len();
        assert!(hi <= src.len());
        assert_eq!(t.lexeme(), &src[lo..hi]);
    }
}

#[test]
fn positions_never_decrease() {
    let src = b"class A {\n  fun m() {\n    return 1.5;\n  }\n}\n";
    let (toks, diags) = scan_all(src);
    assert!(diags.is_empty());
    for pair in toks.windows(2) {
        assert!(pair[0].offset() <= pair[1].offset());
        assert!(pair[0].line() <= pair[1].line());
        if pair[1].line() > pair[0].line() {
            let col = pair[1].column();
            let off = pair[1].offset();
            assert_eq!(src[off - col..off].iter().filter(|&&b| b == b'\n').count(), 0);
            assert!(off == col || src[off - col - 1] == b'\n');
        }
    }
}

#[test]
fn end_of_input_kind_appears_exactly_once() {
    let src = b"var a = 1; var b = a; // done";
    let (toks, _diags) = scan_all(src);
    let eof_count = toks.iter().filter(|t| t.token() == Token::EOF).count();
    assert_eq!(eof_count, 1);
    assert_eq!(toks.last().unwrap().token(), Token::EOF);
    assert_eq!(toks.last().unwrap().lexeme(), b"".as_slice());
}
