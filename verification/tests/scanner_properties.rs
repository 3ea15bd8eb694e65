//! Concrete checks of the scanner's stated properties: determinism,
//! maximal munch, termination and end-of-input stability, keyword
//! exactness, two-character operator disambiguation, and illegal-byte
//! resynchronization.

use monkey::lexer::{Lexer, Token};

fn collect_tokens(input: &str) -> Vec<Token> {
    let mut lexer = Lexer::new(input.into());
    let mut tokens = Vec::new();
    loop {
        let token = lexer.next_token();
        let done = token == Token::Eof;
        tokens.push(token);
        if done {
            break;
        }
    }
    tokens
}

#[test]
fn tokenizing_identical_input_twice_is_deterministic() {
    let input = "let five = 5; if (a != b) { return true; } @";
    assert_eq!(collect_tokens(input), collect_tokens(input));
}

#[test]
fn maximal_munch_consumes_whole_runs() {
    assert_eq!(
        collect_tokens("lettuce"),
        vec![Token::Ident("lettuce".into()), Token::Eof]
    );
    assert_eq!(
        collect_tokens("12345"),
        vec![Token::Int("12345".into()), Token::Eof]
    );
    assert_eq!(
        collect_tokens("truest falsehood iffy"),
        vec![
            Token::Ident("truest".into()),
            Token::Ident("falsehood".into()),
            Token::Ident("iffy".into()),
            Token::Eof,
        ]
    );
}

#[test]
fn digits_end_an_identifier_run() {
    // Identifier runs are letters and underscores only: a digit ends them.
    assert_eq!(
        collect_tokens("x1"),
        vec![
            Token::Ident("x".into()),
            Token::Int("1".into()),
            Token::Eof,
        ]
    );
}

#[test]
fn repeated_pulls_reach_and_keep_end_of_input() {
    let mut lexer = Lexer::new("let x".into());
    let mut pulls: usize = 0;
    while lexer.next_token() != Token::Eof {
        pulls += 1;
        assert!(pulls <= 5, "scanner did not reach end-of-input");
    }
    for _ in 0..10 {
        assert_eq!(lexer.next_token(), Token::Eof);
    }
}

#[test]
fn end_of_input_is_stable_at_an_embedded_zero_byte() {
    // Byte value 0 signals end-of-input wherever it stands; the scanner
    // never advances past it.
    let mut lexer = Lexer::new("ab\0cd".into());
    assert_eq!(lexer.next_token(), Token::Ident("ab".into()));
    for _ in 0..5 {
        assert_eq!(lexer.next_token(), Token::Eof);
    }
}

#[test]
fn each_keyword_yields_its_keyword_token() {
    assert_eq!(
        collect_tokens("let fn if else return true false"),
        vec![
            Token::Let,
            Token::Function,
            Token::If,
            Token::Else,
            Token::Return,
            Token::True,
            Token::False,
            Token::Eof,
        ]
    );
}

#[test]
fn near_keywords_yield_identifier_tokens() {
    assert_eq!(
        collect_tokens("lets fna ifs elsewhere returns truth falsey _let"),
        vec![
            Token::Ident("lets".into()),
            Token::Ident("fna".into()),
            Token::Ident("ifs".into()),
            Token::Ident("elsewhere".into()),
            Token::Ident("returns".into()),
            Token::Ident("truth".into()),
            Token::Ident("falsey".into()),
            Token::Ident("_let".into()),
            Token::Eof,
        ]
    );
}

#[test]
fn two_character_operators_are_single_tokens() {
    assert_eq!(collect_tokens("=="), vec![Token::Eq, Token::Eof]);
    assert_eq!(collect_tokens("!="), vec![Token::NotEq, Token::Eof]);
    assert_eq!(collect_tokens("="), vec![Token::Assign, Token::Eof]);
    assert_eq!(collect_tokens("!"), vec![Token::Bang, Token::Eof]);
    assert_eq!(
        collect_tokens("=!"),
        vec![Token::Assign, Token::Bang, Token::Eof]
    );
    assert_eq!(
        collect_tokens("===!=!"),
        vec![Token::Eq, Token::Assign, Token::NotEq, Token::Bang, Token::Eof]
    );
}

#[test]
fn illegal_byte_yields_one_illegal_token_and_scanning_resumes() {
    assert_eq!(
        collect_tokens("a@b"),
        vec![
            Token::Ident("a".into()),
            Token::Illegal,
            Token::Ident("b".into()),
            Token::Eof,
        ]
    );
    assert_eq!(collect_tokens("#"), vec![Token::Illegal, Token::Eof]);
    // A multi-byte UTF-8 character is one illegal token per byte.
    assert_eq!(
        collect_tokens("é1"),
        vec![
            Token::Illegal,
            Token::Illegal,
            Token::Int("1".into()),
            Token::Eof,
        ]
    );
}

#[test]
fn whitespace_only_input_is_end_of_input() {
    assert_eq!(collect_tokens(" \t\r\n "), vec![Token::Eof]);
    assert_eq!(collect_tokens(""), vec![Token::Eof]);
}

#[test]
fn integer_tokens_carry_their_exact_digit_text() {
    assert_eq!(
        collect_tokens("007 000000000000000000000000042"),
        vec![
            Token::Int("007".into()),
            Token::Int("000000000000000000000000042".into()),
            Token::Eof,
        ]
    );
}
