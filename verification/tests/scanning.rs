use rustylox::common::TokenType;
use rustylox::scanner::{ScanError, Scanner, Token};
use rustylox::vm::{InterpretResult, VM};

fn tokens_of(src: &str) -> Vec<(TokenType, Vec<u8>)> {
    let bytes = src.as_bytes().to_vec();
    let mut scanner = Scanner::new(bytes.clone());
    let mut out = Vec::new();
    loop {
        match scanner.scan_token() {
            Ok(t) => {
                let lex = bytes[t.start..t.end].to_vec();
                let done = t.token_type == TokenType::Eof;
                out.push((t.token_type, lex));
                if done {
                    return out;
                }
            }
            Err(e) => panic!("unexpected scan error: {}", e.message()),
        }
    }
}

fn token_types(src: &str) -> Vec<TokenType> {
    tokens_of(src).into_iter().map(|p| p.0).collect()
}

fn first_token(src: &str) -> Token {
    let mut scanner = Scanner::new(src.as_bytes().to_vec());
    scanner.scan_token().expect("scan failed")
}

fn first_error(src: &str) -> ScanError {
    let mut scanner = Scanner::new(src.as_bytes().to_vec());
    loop {
        match scanner.scan_token() {
            Ok(t) => {
                if t.token_type == TokenType::Eof {
                    panic!("no scan error in {:?}", src);
                }
            }
            Err(e) => return e,
        }
    }
}

#[test]
fn keywords_are_recognized() {
    let src = "and class else false for fun if nil or print return super this true var while";
    let expected = vec![
        TokenType::And,
        TokenType::Class,
        TokenType::Else,
        TokenType::False,
        TokenType::For,
        TokenType::Fun,
        TokenType::If,
        TokenType::Nil,
        TokenType::Or,
        TokenType::Print,
        TokenType::Return,
        TokenType::Super,
        TokenType::This,
        TokenType::True,
        TokenType::Var,
        TokenType::While,
        TokenType::Eof,
    ];
    assert_eq!(token_types(src), expected);
}

#[test]
fn near_keywords_are_identifiers() {
    let src = "android classy f fa t th truely orbit whil whiles";
    for (tt, _) in tokens_of(src) {
        assert!(tt == TokenType::Identifier || tt == TokenType::Eof, "got {:?}", tt);
    }
}

#[test]
fn compound_operators_take_two_bytes() {
    let src = "! != = == < <= > >= + += - -= * *= / /=";
    let expected = vec![
        TokenType::Bang,
        TokenType::BangEqual,
        TokenType::Equal,
        TokenType::EqualEqual,
        TokenType::Less,
        TokenType::LessEqual,
        TokenType::Greater,
        TokenType::GreaterEqual,
        TokenType::Plus,
        TokenType::PlusEqual,
        TokenType::Minus,
        TokenType::MinusEqual,
        TokenType::Star,
        TokenType::StarEqual,
        TokenType::Slash,
        TokenType::SlashEqual,
        TokenType::Eof,
    ];
    assert_eq!(token_types(src), expected);
}

#[test]
fn punctuation_tokens() {
    let src = "( ) { } , . ; ? :";
    let expected = vec![
        TokenType::LeftParen,
        TokenType::RightParen,
        TokenType::LeftBrace,
        TokenType::RightBrace,
        TokenType::Comma,
        TokenType::Dot,
        TokenType::Semicolon,
        TokenType::Question,
        TokenType::Colon,
        TokenType::Eof,
    ];
    assert_eq!(token_types(src), expected);
}

#[test]
fn number_lexemes_include_fractions() {
    let toks = tokens_of("12.5 7 0.125");
    assert_eq!(toks[0], (TokenType::Number, b"12.5".to_vec()));
    assert_eq!(toks[1], (TokenType::Number, b"7".to_vec()));
    assert_eq!(toks[2], (TokenType::Number, b"0.125".to_vec()));
}

#[test]
fn dot_without_fraction_is_its_own_token() {
    let types = token_types("12.hello");
    assert_eq!(
        types,
        vec![TokenType::Number, TokenType::Dot, TokenType::Identifier, TokenType::Eof],
    );
}

#[test]
fn string_lexeme_keeps_quotes_and_counts_lines() {
    let t = first_token("\"hi\nthere\"");
    assert_eq!(t.token_type, TokenType::StringToken);
    assert_eq!(t.start, 0);
    assert_eq!(t.end, 10);
    assert_eq!(t.line, 2);
}

#[test]
fn newlines_advance_the_line_counter() {
    let mut scanner = Scanner::new(b"1\n2\n\n3".to_vec());
    let t1 = scanner.scan_token().unwrap();
    let t2 = scanner.scan_token().unwrap();
    let t3 = scanner.scan_token().unwrap();
    assert_eq!((t1.line, t2.line, t3.line), (1, 2, 4));
}

#[test]
fn empty_source_scans_to_eof() {
    let t = first_token("");
    assert_eq!(t.token_type, TokenType::Eof);
    assert_eq!(t.start, t.end);
}

#[test]
fn unterminated_string_is_an_error() {
    let e = first_error("\"abc");
    assert_eq!(e, ScanError::UnterminatedString);
    assert_eq!(e.message(), "Unterminated string.");
}

#[test]
fn stray_character_is_an_error() {
    let e = first_error("1 + @");
    assert_eq!(e, ScanError::UnexpectedCharacter);
    assert_eq!(e.message(), "Unexpected character.");
}

#[test]
fn unterminated_block_comment_is_an_error() {
    let e = first_error("1 /* never closed");
    assert_eq!(e, ScanError::UnterminatedComment);
}

#[test]
fn block_comment_terminator_needs_both_bytes() {
    // A lone star or slash inside the comment does not close it.
    let toks = token_types("/* * / ** */ 7");
    assert_eq!(toks, vec![TokenType::Number, TokenType::Eof]);
}

#[test]
fn comment_placement_leaves_token_stream_unchanged() {
    // A fixed linear congruential generator drives comment placement.
    let base = "1 + 23 * ( 4 - 5 ) / ( true == false ) + \"str\" ";
    let reference = tokens_of(base);
    let mut seed: u64 = 0x2545_f491_4f6c_dd1d;
    for round in 0..50 {
        let mut src = String::new();
        for piece in base.split(' ') {
            src.push_str(piece);
            seed = seed.wrapping_mul(6364136223846793005).wrapping_add(1442695040888963407);
            match (seed >> 33) % 4 {
                0 => src.push_str(" // line comment\n"),
                1 => src.push_str(" /* block */ "),
                2 => src.push_str(" /* multi\nline\ncomment */ "),
                _ => src.push(' '),
            }
        }
        let with_comments = tokens_of(&src);
        assert_eq!(with_comments, reference, "round {} source {:?}", round, src);
    }
}

#[test]
fn fuzzed_defects_fail_gracefully() {
    // Unterminated strings and stray bytes must yield a compile error, not
    // a crash.
    let mut seed: u64 = 0x9e37_79b9_7f4a_7c15;
    for _ in 0..200 {
        let mut src = String::new();
        for _ in 0..12 {
            seed = seed.wrapping_mul(6364136223846793005).wrapping_add(1442695040888963407);
            match (seed >> 40) % 8 {
                0 => src.push('"'),
                1 => src.push('@'),
                2 => src.push('#'),
                3 => src.push_str("1 +"),
                4 => src.push_str("/*"),
                5 => src.push('\n'),
                6 => src.push_str("\"open"),
                _ => src.push_str("nil"),
            }
        }
        let mut vm = VM::new();
        let r = vm.interpret(src.as_bytes().to_vec());
        assert!(
            r == InterpretResult::InterpretOk || r == InterpretResult::InterpretCompileError
                || r == InterpretResult::InterpretRuntimeError,
        );
    }
}
