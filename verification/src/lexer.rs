//! The tokenizer: a finite-state scanner over raw bytes.
//!
//! The scanner is specified by three spec-level functions over the input
//! byte sequence and a cursor position: [`spec_token_at`] gives the token
//! that a pull produces, [`spec_next_pos`] the cursor position afterwards,
//! and [`spec_tokens_from`] the whole remaining token sequence (excluding
//! the terminal end-of-input token). [`Lexer::next_token`] is proved to
//! follow them exactly.

use vstd::prelude::*;
use vstd::string::StrSliceExecFns;
use vstd::utf8::encode_utf8;

verus! {

// Byte values of the characters the scanner recognizes.
pub const B_SPACE: u8 = 32;
pub const B_TAB: u8 = 9;
pub const B_NEWLINE: u8 = 10;
pub const B_CARRIAGE_RETURN: u8 = 13;
pub const B_ZERO: u8 = 48;
pub const B_NINE: u8 = 57;
pub const B_LOWER_A: u8 = 97;
pub const B_LOWER_Z: u8 = 122;
pub const B_UPPER_A: u8 = 65;
pub const B_UPPER_Z: u8 = 90;
pub const B_UNDERSCORE: u8 = 95;
pub const B_EQUALS: u8 = 61;
pub const B_BANG: u8 = 33;
pub const B_SEMICOLON: u8 = 59;
pub const B_LPAREN: u8 = 40;
pub const B_RPAREN: u8 = 41;
pub const B_COMMA: u8 = 44;
pub const B_PLUS: u8 = 43;
pub const B_LBRACE: u8 = 123;
pub const B_RBRACE: u8 = 125;
pub const B_MINUS: u8 = 45;
pub const B_ASTERISK: u8 = 42;
pub const B_SLASH: u8 = 47;
pub const B_LESS_THAN: u8 = 60;
pub const B_GREATER_THAN: u8 = 62;

/// A classified unit of source text.
#[derive(Debug)]
pub enum Token {
    Int(String),
    Ident(String),
    Illegal,
    Eof,
    Assign,
    Plus,
    Comma,
    Semicolon,
    Lparen,
    Rparen,
    Lbrace,
    Rbrace,
    Function,
    Let,
    Minus,
    Bang,
    Asterisk,
    Slash,
    Lt,
    Gt,
    If,
    Else,
    Return,
    True,
    False,
    Eq,
    NotEq,
}

/// Model of a [`Token`]: the same variants, with text payloads as
/// character sequences.
pub enum SpecToken {
    Int(Seq<char>),
    Ident(Seq<char>),
    Illegal,
    Eof,
    Assign,
    Plus,
    Comma,
    Semicolon,
    Lparen,
    Rparen,
    Lbrace,
    Rbrace,
    Function,
    Let,
    Minus,
    Bang,
    Asterisk,
    Slash,
    Lt,
    Gt,
    If,
    Else,
    Return,
    True,
    False,
    Eq,
    NotEq,
}

impl View for Token {
    type V = SpecToken;

    open spec fn view(&self) -> SpecToken {
        match self {
            Token::Int(s) => SpecToken::Int(s@),
            Token::Ident(s) => SpecToken::Ident(s@),
            Token::Illegal => SpecToken::Illegal,
            Token::Eof => SpecToken::Eof,
            Token::Assign => SpecToken::Assign,
            Token::Plus => SpecToken::Plus,
            Token::Comma => SpecToken::Comma,
            Token::Semicolon => SpecToken::Semicolon,
            Token::Lparen => SpecToken::Lparen,
            Token::Rparen => SpecToken::Rparen,
            Token::Lbrace => SpecToken::Lbrace,
            Token::Rbrace => SpecToken::Rbrace,
            Token::Function => SpecToken::Function,
            Token::Let => SpecToken::Let,
            Token::Minus => SpecToken::Minus,
            Token::Bang => SpecToken::Bang,
            Token::Asterisk => SpecToken::Asterisk,
            Token::Slash => SpecToken::Slash,
            Token::Lt => SpecToken::Lt,
            Token::Gt => SpecToken::Gt,
            Token::If => SpecToken::If,
            Token::Else => SpecToken::Else,
            Token::Return => SpecToken::Return,
            Token::True => SpecToken::True,
            Token::False => SpecToken::False,
            Token::Eq => SpecToken::Eq,
            Token::NotEq => SpecToken::NotEq,
        }
    }
}

impl Clone for Token {
    /// Cloning a token preserves its value exactly.
    fn clone(&self) -> (r: Token)
        ensures
            r == *self,
    {
        match self {
            Token::Int(s) => Token::Int(s.clone()),
            Token::Ident(s) => Token::Ident(s.clone()),
            Token::Illegal => Token::Illegal,
            Token::Eof => Token::Eof,
            Token::Assign => Token::Assign,
            Token::Plus => Token::Plus,
            Token::Comma => Token::Comma,
            Token::Semicolon => Token::Semicolon,
            Token::Lparen => Token::Lparen,
            Token::Rparen => Token::Rparen,
            Token::Lbrace => Token::Lbrace,
            Token::Rbrace => Token::Rbrace,
            Token::Function => Token::Function,
            Token::Let => Token::Let,
            Token::Minus => Token::Minus,
            Token::Bang => Token::Bang,
            Token::Asterisk => Token::Asterisk,
            Token::Slash => Token::Slash,
            Token::Lt => Token::Lt,
            Token::Gt => Token::Gt,
            Token::If => Token::If,
            Token::Else => Token::Else,
            Token::Return => Token::Return,
            Token::True => Token::True,
            Token::False => Token::False,
            Token::Eq => Token::Eq,
            Token::NotEq => Token::NotEq,
        }
    }
}

impl PartialEq for Token {
    fn eq(&self, other: &Token) -> (r: bool) {
        match (self, other) {
            (Token::Int(a), Token::Int(b)) => *a == *b,
            (Token::Ident(a), Token::Ident(b)) => *a == *b,
            (Token::Illegal, Token::Illegal) => true,
            (Token::Eof, Token::Eof) => true,
            (Token::Assign, Token::Assign) => true,
            (Token::Plus, Token::Plus) => true,
            (Token::Comma, Token::Comma) => true,
            (Token::Semicolon, Token::Semicolon) => true,
            (Token::Lparen, Token::Lparen) => true,
            (Token::Rparen, Token::Rparen) => true,
            (Token::Lbrace, Token::Lbrace) => true,
            (Token::Rbrace, Token::Rbrace) => true,
            (Token::Function, Token::Function) => true,
            (Token::Let, Token::Let) => true,
            (Token::Minus, Token::Minus) => true,
            (Token::Bang, Token::Bang) => true,
            (Token::Asterisk, Token::Asterisk) => true,
            (Token::Slash, Token::Slash) => true,
            (Token::Lt, Token::Lt) => true,
            (Token::Gt, Token::Gt) => true,
            (Token::If, Token::If) => true,
            (Token::Else, Token::Else) => true,
            (Token::Return, Token::Return) => true,
            (Token::True, Token::True) => true,
            (Token::False, Token::False) => true,
            (Token::Eq, Token::Eq) => true,
            (Token::NotEq, Token::NotEq) => true,
            _ => false,
        }
    }
}

impl vstd::std_specs::cmp::PartialEqSpecImpl for Token {
    open spec fn obeys_eq_spec() -> bool {
        true
    }

    open spec fn eq_spec(&self, other: &Token) -> bool {
        self@ == other@
    }
}

// ---------------------------------------------------------------------------
// Byte classification
// ---------------------------------------------------------------------------

/// The whitespace bytes the scanner skips: space, tab, newline, carriage
/// return.
pub open spec fn is_whitespace_byte(b: u8) -> bool {
    b == B_SPACE || b == B_TAB || b == B_NEWLINE || b == B_CARRIAGE_RETURN
}

/// ASCII decimal digits.
pub open spec fn is_digit_byte(b: u8) -> bool {
    B_ZERO <= b && b <= B_NINE
}

/// The bytes an identifier run is made of: ASCII letters and underscore.
pub open spec fn is_letter_byte(b: u8) -> bool {
    (B_LOWER_A <= b && b <= B_LOWER_Z) || (B_UPPER_A <= b && b <= B_UPPER_Z) || b == B_UNDERSCORE
}

/// The bytes that start a punctuation or operator token.
pub open spec fn is_punctuation_byte(b: u8) -> bool {
    b == B_EQUALS || b == B_BANG || b == B_SEMICOLON || b == B_LPAREN || b == B_RPAREN || b == B_COMMA || b == B_PLUS
        || b == B_LBRACE || b == B_RBRACE || b == B_MINUS || b == B_ASTERISK || b == B_SLASH || b == B_LESS_THAN || b == B_GREATER_THAN
}

/// The byte under the cursor, with 0 signalling "past the end".
pub open spec fn byte_at(input: Seq<u8>, pos: int) -> u8 {
    if 0 <= pos && pos < input.len() {
        input[pos]
    } else {
        0
    }
}

/// ASCII bytes read as the characters with the same code.
pub open spec fn chars_of_bytes(bytes: Seq<u8>) -> Seq<char> {
    bytes.map_values(|b: u8| (b as u32) as char)
}

// ---------------------------------------------------------------------------
// The scanner, at the specification level
// ---------------------------------------------------------------------------

/// The position of the first non-whitespace byte at or after `pos`.
pub open spec fn skip_ws_pos(input: Seq<u8>, pos: int) -> int
    decreases input.len() - pos
        when 0 <= pos <= input.len()
{
    if pos < input.len() && is_whitespace_byte(input[pos]) {
        skip_ws_pos(input, pos + 1)
    } else {
        pos
    }
}

/// The end of the maximal digit run starting at `pos`.
pub open spec fn digit_run_end(input: Seq<u8>, pos: int) -> int
    decreases input.len() - pos
        when 0 <= pos <= input.len()
{
    if pos < input.len() && is_digit_byte(input[pos]) {
        digit_run_end(input, pos + 1)
    } else {
        pos
    }
}

/// The end of the maximal letter/underscore run starting at `pos`.
pub open spec fn letter_run_end(input: Seq<u8>, pos: int) -> int
    decreases input.len() - pos
        when 0 <= pos <= input.len()
{
    if pos < input.len() && is_letter_byte(input[pos]) {
        letter_run_end(input, pos + 1)
    } else {
        pos
    }
}

/// Whether a letter/underscore run is exactly one of the seven keywords.
pub open spec fn is_keyword_text(word: Seq<u8>) -> bool {
    ||| word == seq![108u8, 101u8, 116u8]  // "let"
    ||| word == seq![102u8, 110u8]  // "fn"
    ||| word == seq![105u8, 102u8]  // "if"
    ||| word == seq![101u8, 108u8, 115u8, 101u8]  // "else"
    ||| word == seq![114u8, 101u8, 116u8, 117u8, 114u8, 110u8]  // "return"
    ||| word == seq![116u8, 114u8, 117u8, 101u8]  // "true"
    ||| word == seq![102u8, 97u8, 108u8, 115u8, 101u8]  // "false"
}

/// The token an identifier run denotes: the matching keyword, or an
/// identifier carrying the run's text.
pub open spec fn spec_keyword(word: Seq<u8>) -> SpecToken {
    if word == seq![108u8, 101u8, 116u8] {  // "let"
        SpecToken::Let
    } else if word == seq![102u8, 110u8] {  // "fn"
        SpecToken::Function
    } else if word == seq![105u8, 102u8] {  // "if"
        SpecToken::If
    } else if word == seq![101u8, 108u8, 115u8, 101u8] {  // "else"
        SpecToken::Else
    } else if word == seq![114u8, 101u8, 116u8, 117u8, 114u8, 110u8] {  // "return"
        SpecToken::Return
    } else if word == seq![116u8, 114u8, 117u8, 101u8] {  // "true"
        SpecToken::True
    } else if word == seq![102u8, 97u8, 108u8, 115u8, 101u8] {  // "false"
        SpecToken::False
    } else {
        SpecToken::Ident(chars_of_bytes(word))
    }
}

/// The token produced by one pull of the scanner at position `pos`.
pub open spec fn spec_token_at(input: Seq<u8>, pos: int) -> SpecToken {
    let p = skip_ws_pos(input, pos);
    let c = byte_at(input, p);
    if c == 0 {
        SpecToken::Eof
    } else if c == B_EQUALS {
        if byte_at(input, p + 1) == B_EQUALS {
            SpecToken::Eq
        } else {
            SpecToken::Assign
        }
    } else if c == B_BANG {
        if byte_at(input, p + 1) == B_EQUALS {
            SpecToken::NotEq
        } else {
            SpecToken::Bang
        }
    } else if c == B_SEMICOLON {
        SpecToken::Semicolon
    } else if c == B_LPAREN {
        SpecToken::Lparen
    } else if c == B_RPAREN {
        SpecToken::Rparen
    } else if c == B_COMMA {
        SpecToken::Comma
    } else if c == B_PLUS {
        SpecToken::Plus
    } else if c == B_LBRACE {
        SpecToken::Lbrace
    } else if c == B_RBRACE {
        SpecToken::Rbrace
    } else if c == B_MINUS {
        SpecToken::Minus
    } else if c == B_ASTERISK {
        SpecToken::Asterisk
    } else if c == B_SLASH {
        SpecToken::Slash
    } else if c == B_LESS_THAN {
        SpecToken::Lt
    } else if c == B_GREATER_THAN {
        SpecToken::Gt
    } else if is_digit_byte(c) {
        SpecToken::Int(chars_of_bytes(input.subrange(p, digit_run_end(input, p))))
    } else if is_letter_byte(c) {
        spec_keyword(input.subrange(p, letter_run_end(input, p)))
    } else {
        SpecToken::Illegal
    }
}

/// The cursor position after one pull of the scanner at position `pos`.
pub open spec fn spec_next_pos(input: Seq<u8>, pos: int) -> int {
    let p = skip_ws_pos(input, pos);
    let c = byte_at(input, p);
    if c == 0 {
        p
    } else if c == B_EQUALS && byte_at(input, p + 1) == B_EQUALS {
        p + 2
    } else if c == B_BANG && byte_at(input, p + 1) == B_EQUALS {
        p + 2
    } else if is_digit_byte(c) {
        digit_run_end(input, p)
    } else if is_letter_byte(c) {
        letter_run_end(input, p)
    } else {
        p + 1
    }
}

// ---------------------------------------------------------------------------
// Properties of the specification-level scanner
// ---------------------------------------------------------------------------

pub proof fn lemma_skip_ws_pos(input: Seq<u8>, pos: int)
    requires
        0 <= pos <= input.len(),
    ensures
        pos <= skip_ws_pos(input, pos) <= input.len(),
        !is_whitespace_byte(byte_at(input, skip_ws_pos(input, pos))),
        forall|k: int| pos <= k < skip_ws_pos(input, pos) ==> is_whitespace_byte(input[k]),
    decreases input.len() - pos,
{
    if pos < input.len() && is_whitespace_byte(input[pos]) {
        lemma_skip_ws_pos(input, pos + 1);
    }
}

pub proof fn lemma_digit_run_end(input: Seq<u8>, pos: int)
    requires
        0 <= pos <= input.len(),
    ensures
        pos <= digit_run_end(input, pos) <= input.len(),
        !is_digit_byte(byte_at(input, digit_run_end(input, pos))),
        forall|k: int| pos <= k < digit_run_end(input, pos) ==> is_digit_byte(input[k]),
    decreases input.len() - pos,
{
    if pos < input.len() && is_digit_byte(input[pos]) {
        lemma_digit_run_end(input, pos + 1);
    }
}

pub proof fn lemma_letter_run_end(input: Seq<u8>, pos: int)
    requires
        0 <= pos <= input.len(),
    ensures
        pos <= letter_run_end(input, pos) <= input.len(),
        !is_letter_byte(byte_at(input, letter_run_end(input, pos))),
        forall|k: int| pos <= k < letter_run_end(input, pos) ==> is_letter_byte(input[k]),
    decreases input.len() - pos,
{
    if pos < input.len() && is_letter_byte(input[pos]) {
        lemma_letter_run_end(input, pos + 1);
    }
}

/// Termination of scanning: a pull that does not produce end-of-input
/// strictly advances the cursor (and stays within the input), so repeated
/// pulls reach end-of-input after finitely many steps; a pull that produces
/// end-of-input leaves the scanner producing end-of-input forever after.
pub proof fn lemma_scan_progress(input: Seq<u8>, pos: int)
    requires
        0 <= pos <= input.len(),
    ensures
        spec_token_at(input, pos) is Eof ==> {
            let p = spec_next_pos(input, pos);
            &&& pos <= p <= input.len()
            &&& spec_token_at(input, p) is Eof
            &&& spec_next_pos(input, p) == p
        },
        !(spec_token_at(input, pos) is Eof) ==> pos < spec_next_pos(input, pos) <= input.len(),
{
    lemma_skip_ws_pos(input, pos);
    let p = skip_ws_pos(input, pos);
    let c = byte_at(input, p);
    if c == 0 {
        assert(skip_ws_pos(input, p) == p);
    } else {
        assert(p < input.len());
        if is_digit_byte(c) {
            lemma_digit_run_end(input, p);
            assert(digit_run_end(input, p) == digit_run_end(input, p + 1));
        } else if is_letter_byte(c) {
            lemma_letter_run_end(input, p);
            assert(letter_run_end(input, p) == letter_run_end(input, p + 1));
        } else if c == B_EQUALS && byte_at(input, p + 1) == B_EQUALS {
            assert(p + 1 < input.len());
        } else if c == B_BANG && byte_at(input, p + 1) == B_EQUALS {
            assert(p + 1 < input.len());
        }
    }
}

/// The sequence of tokens produced from position `pos` up to (and
/// excluding) the terminal end-of-input token.
pub open spec fn spec_tokens_from(input: Seq<u8>, pos: int) -> Seq<SpecToken>
    decreases input.len() - pos
        when 0 <= pos <= input.len()
{
    if spec_token_at(input, pos) is Eof {
        Seq::empty()
    } else {
        proof {
            lemma_scan_progress(input, pos);
        }
        seq![spec_token_at(input, pos)] + spec_tokens_from(input, spec_next_pos(input, pos))
    }
}

/// The whole token sequence of an input, excluding the terminal
/// end-of-input token.
pub open spec fn spec_tokens(input: Seq<u8>) -> Seq<SpecToken> {
    spec_tokens_from(input, 0)
}

/// The remaining token sequence is finite (at most one token per input
/// byte) and never contains the end-of-input token itself.
pub proof fn lemma_tokens_from_finite(input: Seq<u8>, pos: int)
    requires
        0 <= pos <= input.len(),
    ensures
        spec_tokens_from(input, pos).len() <= input.len() - pos,
        forall|k: int|
            0 <= k < spec_tokens_from(input, pos).len()
                ==> !(#[trigger] spec_tokens_from(input, pos)[k] is Eof),
    decreases input.len() - pos,
{
    lemma_scan_progress(input, pos);
    if !(spec_token_at(input, pos) is Eof) {
        lemma_tokens_from_finite(input, spec_next_pos(input, pos));
        let rest = spec_tokens_from(input, spec_next_pos(input, pos));
        let whole = spec_tokens_from(input, pos);
        assert forall|k: int| 0 <= k < whole.len() implies !(#[trigger] whole[k] is Eof) by {
            if k > 0 {
                assert(whole[k] == rest[k - 1]);
            }
        }
    }
}

// ---------------------------------------------------------------------------
// Laws of the scanner
// ---------------------------------------------------------------------------

/// A well-formed tokenizer's cursor lies within its input.
pub proof fn lemma_lexer_pos_bounds(l: Lexer)
    requires
        l.wf(),
    ensures
        0 <= l.pos() <= l.bytes().len(),
{
}

/// Determinism: the next token, the successor position, and the remaining
/// token sequence are functions of the input bytes and the cursor position
/// alone, so two tokenizers in equal states produce identical token
/// sequences, and tokenizing identical input twice gives identical results.
pub proof fn lemma_tokenize_deterministic(l1: Lexer, l2: Lexer)
    requires
        l1.bytes() == l2.bytes(),
        l1.pos() == l2.pos(),
    ensures
        spec_token_at(l1.bytes(), l1.pos()) == spec_token_at(l2.bytes(), l2.pos()),
        spec_next_pos(l1.bytes(), l1.pos()) == spec_next_pos(l2.bytes(), l2.pos()),
        spec_tokens(l1.bytes()) == spec_tokens(l2.bytes()),
{
}

/// Maximal munch: at a digit (respectively letter/underscore), the scanner
/// consumes the entire maximal run: every byte of the run becomes part of
/// one token's text, scanning resumes at the run's end, and the byte there
/// is not a run byte, so no shorter token is ever emitted when a longer
/// match exists.
pub proof fn lemma_maximal_munch(input: Seq<u8>, pos: int)
    requires
        0 <= pos <= input.len(),
    ensures
        ({
            let p = skip_ws_pos(input, pos);
            let e = digit_run_end(input, p);
            is_digit_byte(byte_at(input, p)) ==> {
                &&& spec_token_at(input, pos) == SpecToken::Int(
                    chars_of_bytes(input.subrange(p, e)),
                )
                &&& spec_next_pos(input, pos) == e
                &&& p < e <= input.len()
                &&& forall|k: int| p <= k < e ==> is_digit_byte(input[k])
                &&& !is_digit_byte(byte_at(input, e))
            }
        }),
        ({
            let p = skip_ws_pos(input, pos);
            let e = letter_run_end(input, p);
            is_letter_byte(byte_at(input, p)) ==> {
                &&& spec_token_at(input, pos) == spec_keyword(input.subrange(p, e))
                &&& spec_next_pos(input, pos) == e
                &&& p < e <= input.len()
                &&& forall|k: int| p <= k < e ==> is_letter_byte(input[k])
                &&& !is_letter_byte(byte_at(input, e))
            }
        }),
{
    lemma_skip_ws_pos(input, pos);
    let p = skip_ws_pos(input, pos);
    if is_digit_byte(byte_at(input, p)) {
        lemma_digit_run_end(input, p);
    }
    if is_letter_byte(byte_at(input, p)) {
        lemma_letter_run_end(input, p);
    }
}

/// Keyword exactness: an identifier run equal to exactly one of the seven
/// keywords always yields that keyword token, never a generic identifier
/// token; any other run yields an identifier token carrying the run's
/// text.
pub proof fn lemma_keyword_exactness(word: Seq<u8>)
    ensures
        spec_keyword(word) == SpecToken::Let <==> word == seq![108u8, 101u8, 116u8],
        spec_keyword(word) == SpecToken::Function <==> word == seq![102u8, 110u8],
        spec_keyword(word) == SpecToken::If <==> word == seq![105u8, 102u8],
        spec_keyword(word) == SpecToken::Else <==> word == seq![101u8, 108u8, 115u8, 101u8],
        spec_keyword(word) == SpecToken::Return <==> word == seq![
            114u8,
            101u8,
            116u8,
            117u8,
            114u8,
            110u8,
        ],
        spec_keyword(word) == SpecToken::True <==> word == seq![116u8, 114u8, 117u8, 101u8],
        spec_keyword(word) == SpecToken::False <==> word == seq![102u8, 97u8, 108u8, 115u8, 101u8],
        spec_keyword(word) is Ident <==> !is_keyword_text(word),
        spec_keyword(word) is Ident ==> spec_keyword(word) == SpecToken::Ident(
            chars_of_bytes(word),
        ),
{
}

/// Illegal-byte resynchronization: a byte outside the supported
/// punctuation, digit, letter and whitespace sets (and not the 0 sentinel)
/// yields exactly one illegal token, and scanning resumes on the byte
/// immediately after it.
pub proof fn lemma_illegal_resynchronization(input: Seq<u8>, pos: int)
    requires
        0 <= pos <= input.len(),
        ({
            let b = byte_at(input, skip_ws_pos(input, pos));
            &&& b != 0
            &&& !is_punctuation_byte(b)
            &&& !is_digit_byte(b)
            &&& !is_letter_byte(b)
        }),
    ensures
        spec_token_at(input, pos) == SpecToken::Illegal,
        spec_next_pos(input, pos) == skip_ws_pos(input, pos) + 1,
{
}

// ---------------------------------------------------------------------------
// The executable tokenizer
// ---------------------------------------------------------------------------

/// Pull-based tokenizer over the raw bytes of the source text.
pub struct Lexer {
    input: Vec<u8>,
    position: usize,
    read_position: usize,
    ch: u8,
}

impl Lexer {
    /// The input byte sequence being scanned.
    pub closed spec fn bytes(self) -> Seq<u8> {
        self.input@
    }

    /// The current cursor position.
    pub closed spec fn pos(self) -> int {
        self.position as int
    }

    /// Well-formedness: the cursor is within bounds, the read cursor is one
    /// ahead (capped at the input length), and the byte under the cursor is
    /// cached (0 past the end).
    pub closed spec fn wf(self) -> bool {
        &&& self.position as int <= self.input@.len()
        &&& self.read_position as int == if self.position as int + 1 <= self.input@.len() {
            self.position as int + 1
        } else {
            self.position as int
        }
        &&& self.ch == byte_at(self.input@, self.position as int)
    }

    /// Builds a tokenizer over the UTF-8 bytes of `input`, with the cursor
    /// at the first byte.
    pub fn new(input: String) -> (l: Lexer)
        ensures
            l.wf(),
            l.bytes() == encode_utf8(input@),
            l.pos() == 0,
    {
        let bytes = input.as_str().as_bytes_vec();
        let mut lexer = Lexer { input: bytes, position: 0, read_position: 0, ch: 0 };
        lexer.read_next();
        lexer
    }

    /// Advances the cursor by one byte, refreshing the cached byte.
    fn read_next(&mut self)
        requires
            old(self).read_position as int <= old(self).input@.len(),
        ensures
            final(self).input@ == old(self).input@,
            final(self).position == old(self).read_position,
            final(self).ch == byte_at(final(self).input@, final(self).position as int),
            final(self).read_position as int == if old(self).read_position as int + 1
                <= old(self).input@.len() {
                old(self).read_position as int + 1
            } else {
                old(self).read_position as int
            },
    {
        if self.read_position >= self.input.len() {
            self.ch = 0;
            self.position = self.read_position;
        } else {
            self.ch = self.input[self.read_position];
            self.position = self.read_position;
            self.read_position = self.read_position + 1;
        }
    }

    /// The byte one past the cursor, without advancing (0 past the end).
    fn peek_char(&self) -> (b: u8)
        requires
            self.wf(),
        ensures
            b == byte_at(self.input@, self.position as int + 1),
    {
        if self.read_position >= self.input.len() {
            0
        } else {
            self.input[self.read_position]
        }
    }

    /// Whether the byte under the cursor can be part of an identifier.
    fn is_ident_char(&self) -> (r: bool)
        ensures
            r == is_letter_byte(self.ch),
    {
        (B_LOWER_A <= self.ch && self.ch <= B_LOWER_Z) || (B_UPPER_A <= self.ch && self.ch <= B_UPPER_Z)
            || self.ch == B_UNDERSCORE
    }

    /// Skips the run of whitespace under the cursor.
    fn skip_whitespace(&mut self)
        requires
            old(self).wf(),
        ensures
            final(self).wf(),
            final(self).input@ == old(self).input@,
            final(self).position as int == skip_ws_pos(old(self).input@, old(self).position as int),
    {
        proof {
            lemma_skip_ws_pos(self.input@, self.position as int);
        }
        let ghost input0 = self.input@;
        let ghost target = skip_ws_pos(self.input@, self.position as int);
        while self.ch == B_SPACE || self.ch == B_TAB || self.ch == B_NEWLINE || self.ch == B_CARRIAGE_RETURN
            invariant
                self.wf(),
                self.input@ == input0,
                self.position as int <= target <= input0.len(),
                skip_ws_pos(input0, self.position as int) == target,
            decreases target - self.position as int,
        {
            self.read_next();
            proof {
                lemma_skip_ws_pos(input0, self.position as int);
            }
        }
    }

    /// Consumes the maximal digit run under the cursor and returns its bytes.
    fn read_int(&mut self) -> (run: Vec<u8>)
        requires
            old(self).wf(),
            is_digit_byte(old(self).ch),
        ensures
            final(self).wf(),
            final(self).input@ == old(self).input@,
            final(self).position as int == digit_run_end(
                old(self).input@,
                old(self).position as int,
            ),
            run@ == old(self).input@.subrange(
                old(self).position as int,
                final(self).position as int,
            ),
    {
        proof {
            lemma_digit_run_end(self.input@, self.position as int);
        }
        let ghost input0 = self.input@;
        let ghost start = self.position as int;
        let ghost target = digit_run_end(self.input@, start);
        let mut run: Vec<u8> = Vec::new();
        while B_ZERO <= self.ch && self.ch <= B_NINE
            invariant
                self.wf(),
                self.input@ == input0,
                0 <= start <= self.position as int <= target <= input0.len(),
                digit_run_end(input0, self.position as int) == target,
                run@ == input0.subrange(start, self.position as int),
            decreases target - self.position as int,
        {
            let ghost cur = self.position as int;
            run.push(self.ch);
            proof {
                assert(run@ =~= input0.subrange(start, cur + 1));
            }
            self.read_next();
            proof {
                lemma_digit_run_end(input0, self.position as int);
            }
        }
        run
    }

    /// Consumes the maximal letter/underscore run under the cursor and
    /// returns its bytes.
    fn read_ident(&mut self) -> (run: Vec<u8>)
        requires
            old(self).wf(),
            is_letter_byte(old(self).ch),
        ensures
            final(self).wf(),
            final(self).input@ == old(self).input@,
            final(self).position as int == letter_run_end(
                old(self).input@,
                old(self).position as int,
            ),
            run@ == old(self).input@.subrange(
                old(self).position as int,
                final(self).position as int,
            ),
    {
        proof {
            lemma_letter_run_end(self.input@, self.position as int);
        }
        let ghost input0 = self.input@;
        let ghost start = self.position as int;
        let ghost target = letter_run_end(self.input@, start);
        let mut run: Vec<u8> = Vec::new();
        while self.is_ident_char()
            invariant
                self.wf(),
                self.input@ == input0,
                0 <= start <= self.position as int <= target <= input0.len(),
                letter_run_end(input0, self.position as int) == target,
                run@ == input0.subrange(start, self.position as int),
            decreases target - self.position as int,
        {
            let ghost cur = self.position as int;
            run.push(self.ch);
            proof {
                assert(run@ =~= input0.subrange(start, cur + 1));
            }
            self.read_next();
            proof {
                lemma_letter_run_end(input0, self.position as int);
            }
        }
        run
    }

    /// Produces the next token, following the specification-level scanner.
    pub fn next_token(&mut self) -> (t: Token)
        requires
            old(self).wf(),
        ensures
            final(self).wf(),
            final(self).bytes() == old(self).bytes(),
            t@ == spec_token_at(old(self).bytes(), old(self).pos()),
            final(self).pos() == spec_next_pos(old(self).bytes(), old(self).pos()),
    {
        self.skip_whitespace();
        proof {
            lemma_skip_ws_pos(self.input@, self.position as int);
        }
        let c = self.ch;
        if c == 0 {
            return Token::Eof;
        }
        if c == B_EQUALS {
            if self.peek_char() == B_EQUALS {
                self.read_next();
                self.read_next();
                return Token::Eq;
            }
            self.read_next();
            return Token::Assign;
        }
        if c == B_BANG {
            if self.peek_char() == B_EQUALS {
                self.read_next();
                self.read_next();
                return Token::NotEq;
            }
            self.read_next();
            return Token::Bang;
        }
        if B_ZERO <= c && c <= B_NINE {
            let ghost p = self.position as int;
            let run = self.read_int();
            proof {
                lemma_digit_run_end(self.input@, p);
                assert forall|k: int| 0 <= k < run@.len() implies run@[k] < 128 by {
                    assert(run@[k] == self.input@[p + k]);
                    assert(is_digit_byte(self.input@[p + k]));
                }
            }
            return Token::Int(ascii_to_string(run));
        }
        if (B_LOWER_A <= c && c <= B_LOWER_Z) || (B_UPPER_A <= c && c <= B_UPPER_Z) || c == B_UNDERSCORE {
            let ghost p = self.position as int;
            let run = self.read_ident();
            proof {
                lemma_letter_run_end(self.input@, p);
                assert forall|k: int| 0 <= k < run@.len() implies is_letter_byte(run@[k]) by {
                    assert(run@[k] == self.input@[p + k]);
                }
            }
            return keyword_or_ident(run);
        }
        let t = if c == B_SEMICOLON {
            Token::Semicolon
        } else if c == B_LPAREN {
            Token::Lparen
        } else if c == B_RPAREN {
            Token::Rparen
        } else if c == B_COMMA {
            Token::Comma
        } else if c == B_PLUS {
            Token::Plus
        } else if c == B_LBRACE {
            Token::Lbrace
        } else if c == B_RBRACE {
            Token::Rbrace
        } else if c == B_MINUS {
            Token::Minus
        } else if c == B_ASTERISK {
            Token::Asterisk
        } else if c == B_SLASH {
            Token::Slash
        } else if c == B_LESS_THAN {
            Token::Lt
        } else if c == B_GREATER_THAN {
            Token::Gt
        } else {
            Token::Illegal
        };
        self.read_next();
        t
    }
}

/// Relies on `String::from_utf8_lossy`: bytes below 0x80 are ASCII, a
/// one-byte UTF-8 sequence each, and decode to the character with the same
/// code, one character per byte.
#[verifier::external_body]
fn ascii_to_string(bytes: Vec<u8>) -> (r: String)
    requires
        forall|k: int| 0 <= k < bytes@.len() ==> bytes@[k] < 128,
    ensures
        r@ == chars_of_bytes(bytes@),
{
    String::from_utf8_lossy(&bytes).into_owned()
}

/// Classifies a finished identifier run as a keyword or an identifier.
fn keyword_or_ident(word: Vec<u8>) -> (t: Token)
    requires
        forall|k: int| 0 <= k < word@.len() ==> is_letter_byte(word@[k]),
    ensures
        t@ == spec_keyword(word@),
{
    if word.len() == 3 && word[0] == 108 && word[1] == 101 && word[2] == 116 {
        proof {
            assert(word@ =~= seq![108u8, 101u8, 116u8]);
        }
        Token::Let
    } else if word.len() == 2 && word[0] == 102 && word[1] == 110 {
        proof {
            assert(word@ =~= seq![102u8, 110u8]);
        }
        Token::Function
    } else if word.len() == 2 && word[0] == 105 && word[1] == 102 {
        proof {
            assert(word@ =~= seq![105u8, 102u8]);
        }
        Token::If
    } else if word.len() == 4 && word[0] == 101 && word[1] == 108 && word[2] == 115 && word[3]
        == 101 {
        proof {
            assert(word@ =~= seq![101u8, 108u8, 115u8, 101u8]);
        }
        Token::Else
    } else if word.len() == 6 && word[0] == 114 && word[1] == 101 && word[2] == 116 && word[3]
        == 117 && word[4] == 114 && word[5] == 110 {
        proof {
            assert(word@ =~= seq![114u8, 101u8, 116u8, 117u8, 114u8, 110u8]);
        }
        Token::Return
    } else if word.len() == 4 && word[0] == 116 && word[1] == 114 && word[2] == 117 && word[3]
        == 101 {
        proof {
            assert(word@ =~= seq![116u8, 114u8, 117u8, 101u8]);
        }
        Token::True
    } else if word.len() == 5 && word[0] == 102 && word[1] == 97 && word[2] == 108 && word[3]
        == 115 && word[4] == 101 {
        proof {
            assert(word@ =~= seq![102u8, 97u8, 108u8, 115u8, 101u8]);
        }
        Token::False
    } else {
        proof {
            lemma_not_keyword(word@);
        }
        Token::Ident(ascii_to_string(word))
    }
}

/// A run that fails all seven literal comparisons is not a keyword.
proof fn lemma_not_keyword(word: Seq<u8>)
    requires
        !(word.len() == 3 && word[0] == 108 && word[1] == 101 && word[2] == 116),
        !(word.len() == 2 && word[0] == 102 && word[1] == 110),
        !(word.len() == 2 && word[0] == 105 && word[1] == 102),
        !(word.len() == 4 && word[0] == 101 && word[1] == 108 && word[2] == 115 && word[3]
            == 101),
        !(word.len() == 6 && word[0] == 114 && word[1] == 101 && word[2] == 116 && word[3]
            == 117 && word[4] == 114 && word[5] == 110),
        !(word.len() == 4 && word[0] == 116 && word[1] == 114 && word[2] == 117 && word[3]
            == 101),
        !(word.len() == 5 && word[0] == 102 && word[1] == 97 && word[2] == 108 && word[3]
            == 115 && word[4] == 101),
    ensures
        !is_keyword_text(word),
        spec_keyword(word) == SpecToken::Ident(chars_of_bytes(word)),
{
}

} // verus!
