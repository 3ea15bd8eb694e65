//! The parser: pulls tokens from an owned [`Lexer`] through a two-token
//! lookahead window and assembles `let` statements into a [`Program`].
//! Malformed statements are never fatal: each one yields a diagnostic on
//! the parser's `errors` list, and parsing goes on with the next token.
//!
//! The parser is specified by [`spec_parse`], a recursive function from a
//! token sequence and a cursor index to the statements recognized and the
//! diagnostics accumulated; [`Parser::parse_program`] is proved to return
//! exactly its result.

use vstd::prelude::*;

use crate::ast::{Expression, Let, Program, SpecExpression, SpecLet, SpecStatement, Statement};
use crate::lexer::{
    lemma_lexer_pos_bounds, lemma_scan_progress, lemma_tokens_from_finite, spec_next_pos,
    spec_token_at, spec_tokens_from, Lexer, SpecToken, Token,
};

verus! {

/// A parse diagnostic: which required token was missing, and, where a
/// token was inspected, the token found instead.
#[derive(Debug)]
pub enum ParseError {
    ExpectedIdentifier(Token),
    ExpectedAssign(Token),
    UnexpectedEndOfInput,
}

/// Model of a [`ParseError`].
pub enum SpecParseError {
    ExpectedIdentifier(SpecToken),
    ExpectedAssign(SpecToken),
    UnexpectedEndOfInput,
}

impl View for ParseError {
    type V = SpecParseError;

    open spec fn view(&self) -> SpecParseError {
        match self {
            ParseError::ExpectedIdentifier(t) => SpecParseError::ExpectedIdentifier(t@),
            ParseError::ExpectedAssign(t) => SpecParseError::ExpectedAssign(t@),
            ParseError::UnexpectedEndOfInput => SpecParseError::UnexpectedEndOfInput,
        }
    }
}

/// The views of a sequence of diagnostics.
pub open spec fn errors_view(errors: Seq<ParseError>) -> Seq<SpecParseError> {
    errors.map_values(|e: ParseError| e@)
}

/// Whether two tokens carry the same tag, payloads ignored.
pub open spec fn same_kind(a: SpecToken, b: SpecToken) -> bool {
    match (a, b) {
        (SpecToken::Int(_), SpecToken::Int(_)) => true,
        (SpecToken::Ident(_), SpecToken::Ident(_)) => true,
        (SpecToken::Illegal, SpecToken::Illegal) => true,
        (SpecToken::Eof, SpecToken::Eof) => true,
        (SpecToken::Assign, SpecToken::Assign) => true,
        (SpecToken::Plus, SpecToken::Plus) => true,
        (SpecToken::Comma, SpecToken::Comma) => true,
        (SpecToken::Semicolon, SpecToken::Semicolon) => true,
        (SpecToken::Lparen, SpecToken::Lparen) => true,
        (SpecToken::Rparen, SpecToken::Rparen) => true,
        (SpecToken::Lbrace, SpecToken::Lbrace) => true,
        (SpecToken::Rbrace, SpecToken::Rbrace) => true,
        (SpecToken::Function, SpecToken::Function) => true,
        (SpecToken::Let, SpecToken::Let) => true,
        (SpecToken::Minus, SpecToken::Minus) => true,
        (SpecToken::Bang, SpecToken::Bang) => true,
        (SpecToken::Asterisk, SpecToken::Asterisk) => true,
        (SpecToken::Slash, SpecToken::Slash) => true,
        (SpecToken::Lt, SpecToken::Lt) => true,
        (SpecToken::Gt, SpecToken::Gt) => true,
        (SpecToken::If, SpecToken::If) => true,
        (SpecToken::Else, SpecToken::Else) => true,
        (SpecToken::Return, SpecToken::Return) => true,
        (SpecToken::True, SpecToken::True) => true,
        (SpecToken::False, SpecToken::False) => true,
        (SpecToken::Eq, SpecToken::Eq) => true,
        (SpecToken::NotEq, SpecToken::NotEq) => true,
        _ => false,
    }
}

/// The token at index `i` of a finite token sequence; end-of-input at and
/// beyond the end.
pub open spec fn tok_at(s: Seq<SpecToken>, i: int) -> SpecToken {
    if 0 <= i < s.len() {
        s[i]
    } else {
        SpecToken::Eof
    }
}

/// A token sequence with no embedded end-of-input token.
pub open spec fn eof_free(s: Seq<SpecToken>) -> bool {
    forall|k: int| 0 <= k < s.len() ==> !(#[trigger] s[k] is Eof)
}

/// The suffix of `s` from index `i`, empty once `i` passes the end.
pub open spec fn stream_suffix(s: Seq<SpecToken>, i: int) -> Seq<SpecToken> {
    if 0 <= i <= s.len() {
        s.skip(i)
    } else {
        Seq::empty()
    }
}

/// The index of the first semicolon or end-of-input token at or after `i`.
pub open spec fn semi_scan_end(s: Seq<SpecToken>, i: int) -> int
    decreases s.len() - i
        when 0 <= i
{
    if tok_at(s, i) is Semicolon || tok_at(s, i) is Eof {
        i
    } else {
        semi_scan_end(s, i + 1)
    }
}

/// The semicolon scan stops at the first semicolon or end-of-input token
/// and nowhere earlier.
pub proof fn lemma_semi_scan_end(s: Seq<SpecToken>, i: int)
    requires
        0 <= i,
    ensures
        i <= semi_scan_end(s, i),
        i <= s.len() ==> semi_scan_end(s, i) <= s.len(),
        tok_at(s, semi_scan_end(s, i)) is Semicolon || tok_at(s, semi_scan_end(s, i)) is Eof,
        tok_at(s, semi_scan_end(s, i)) is Semicolon ==> semi_scan_end(s, i) < s.len(),
        forall|k: int|
            i <= k < semi_scan_end(s, i) ==> !(tok_at(s, k) is Semicolon) && !(tok_at(
                s,
                k,
            ) is Eof),
    decreases s.len() - i,
{
    if !(tok_at(s, i) is Semicolon) && !(tok_at(s, i) is Eof) {
        lemma_semi_scan_end(s, i + 1);
    }
}

/// The result of parsing from index `i` of a token sequence: the `let`
/// statements recognized and the diagnostics accumulated, both in source
/// order. A `let` needs an identifier after the keyword, an assignment
/// after the identifier, and a closing semicolon; whatever stands between
/// the assignment and the semicolon is scanned past and discarded, and the
/// statement's value is the empty placeholder. Any other token starts no
/// statement and is skipped silently.
pub open spec fn spec_parse(s: Seq<SpecToken>, i: int) -> (Seq<SpecStatement>, Seq<
    SpecParseError,
>)
    decreases s.len() - i
        when 0 <= i
{
    if tok_at(s, i) is Eof {
        (Seq::empty(), Seq::empty())
    } else if tok_at(s, i) is Let {
        match tok_at(s, i + 1) {
            SpecToken::Ident(name) => {
                if tok_at(s, i + 2) is Assign {
                    proof {
                        lemma_semi_scan_end(s, i + 3);
                    }
                    let j = semi_scan_end(s, i + 3);
                    if tok_at(s, j) is Semicolon {
                        let rest = spec_parse(s, j + 1);
                        (
                            seq![
                                SpecStatement::Let(
                                    SpecLet {
                                        name,
                                        value: SpecExpression::Value(Seq::empty()),
                                    },
                                )
                            ] + rest.0,
                            rest.1,
                        )
                    } else {
                        (Seq::empty(), seq![SpecParseError::UnexpectedEndOfInput])
                    }
                } else {
                    let rest = spec_parse(s, i + 2);
                    (rest.0, seq![SpecParseError::ExpectedAssign(tok_at(s, i + 2))] + rest.1)
                }
            },
            _ => {
                let rest = spec_parse(s, i + 1);
                (rest.0, seq![SpecParseError::ExpectedIdentifier(tok_at(s, i + 1))] + rest.1)
            },
        }
    } else {
        spec_parse(s, i + 1)
    }
}

/// Recursive-descent parser: owns its tokenizer and a two-token lookahead
/// window, and accumulates one diagnostic per malformed statement.
pub struct Parser {
    pub lexer: Lexer,
    pub current_token: Token,
    pub peek_token: Token,
    pub errors: Vec<ParseError>,
    pub toks: Ghost<Seq<SpecToken>>,
    pub cursor: Ghost<int>,
}

impl Parser {
    /// The token sequence being parsed, from the position at which the
    /// parser was constructed (end-of-input excluded).
    pub closed spec fn stream(self) -> Seq<SpecToken> {
        self.toks@
    }

    /// The index in [`Parser::stream`] of the current token.
    pub closed spec fn stream_pos(self) -> int {
        self.cursor@
    }

    /// Well-formedness: the lookahead window and the tokenizer agree with
    /// the token stream at the cursor.
    pub closed spec fn wf(self) -> bool {
        &&& self.lexer.wf()
        &&& 0 <= self.cursor@
        &&& eof_free(self.toks@)
        &&& self.current_token@ == tok_at(self.toks@, self.cursor@)
        &&& self.peek_token@ == tok_at(self.toks@, self.cursor@ + 1)
        &&& spec_tokens_from(self.lexer.bytes(), self.lexer.pos()) == stream_suffix(
            self.toks@,
            self.cursor@ + 2,
        )
    }
}

/// Pulling one token from the tokenizer moves the window one step along
/// the stream.
proof fn lemma_stream_step(input: Seq<u8>, pos: int, s: Seq<SpecToken>, i: int)
    requires
        0 <= pos <= input.len(),
        0 <= i,
        eof_free(s),
        spec_tokens_from(input, pos) == stream_suffix(s, i),
    ensures
        spec_token_at(input, pos) == tok_at(s, i),
        spec_tokens_from(input, spec_next_pos(input, pos)) == stream_suffix(s, i + 1),
        0 <= spec_next_pos(input, pos) <= input.len(),
{
    lemma_scan_progress(input, pos);
    let t = spec_token_at(input, pos);
    if t is Eof {
        assert(stream_suffix(s, i).len() == 0);
        assert(i >= s.len());
        assert(tok_at(s, i) is Eof);
        assert(spec_tokens_from(input, spec_next_pos(input, pos)) =~= stream_suffix(s, i + 1));
    } else {
        let rest = spec_tokens_from(input, spec_next_pos(input, pos));
        assert(spec_tokens_from(input, pos) == seq![t] + rest);
        assert(stream_suffix(s, i).len() >= 1);
        assert(i < s.len());
        assert(t == (seq![t] + rest)[0]);
        assert(t == stream_suffix(s, i)[0]);
        assert(t == s[i]);
        assert(rest =~= stream_suffix(s, i + 1)) by {
            assert forall|k: int| 0 <= k < rest.len() implies rest[k] == stream_suffix(
                s,
                i + 1,
            )[k] by {
                assert(rest[k] == (seq![t] + rest)[k + 1]);
                assert(stream_suffix(s, i)[k + 1] == s[i + 1 + k]);
            }
        }
    }
}

/// How one attempt to parse a `let` statement relates the parser states,
/// the result, and the diagnostics, in terms of the tokens that follow
/// the current one at `pre.stream_pos()`.
pub open spec fn let_step_post(pre: Parser, post: Parser, r: Option<Statement>) -> bool {
    let s = pre.stream();
    let i = pre.stream_pos();
    &&& post.wf()
    &&& post.stream() == s
    &&& match tok_at(s, i + 1) {
        SpecToken::Ident(name) => {
            if tok_at(s, i + 2) is Assign {
                let j = semi_scan_end(s, i + 3);
                if tok_at(s, j) is Semicolon {
                    &&& r matches Some(st) && st@ == SpecStatement::Let(
                        SpecLet { name, value: SpecExpression::Value(Seq::empty()) },
                    )
                    &&& post.stream_pos() == j
                    &&& post.errors@ == pre.errors@
                } else {
                    &&& r is None
                    &&& post.stream_pos() == j
                    &&& errors_view(post.errors@) == errors_view(pre.errors@).push(
                        SpecParseError::UnexpectedEndOfInput,
                    )
                }
            } else {
                &&& r is None
                &&& post.stream_pos() == i + 1
                &&& errors_view(post.errors@) == errors_view(pre.errors@).push(
                    SpecParseError::ExpectedAssign(tok_at(s, i + 2)),
                )
            }
        },
        _ => {
            &&& r is None
            &&& post.stream_pos() == i
            &&& errors_view(post.errors@) == errors_view(pre.errors@).push(
                SpecParseError::ExpectedIdentifier(tok_at(s, i + 1)),
            )
        },
    }
}

/// How one attempt to parse a statement relates the parser states, the
/// result, and the diagnostics: the executable counterpart of one
/// non-end-of-input step of [`spec_parse`].
pub open spec fn parse_step_post(pre: Parser, post: Parser, r: Option<Statement>) -> bool {
    if tok_at(pre.stream(), pre.stream_pos()) is Let {
        let_step_post(pre, post, r)
    } else {
        &&& post == pre
        &&& r is None
    }
}

/// Whether two tokens carry the same tag, payloads ignored.
fn token_kind_eq(a: &Token, b: &Token) -> (r: bool)
    ensures
        r == same_kind(a@, b@),
{
    match (a, b) {
        (Token::Int(_), Token::Int(_)) => true,
        (Token::Ident(_), Token::Ident(_)) => true,
        (Token::Illegal, Token::Illegal) => true,
        (Token::Eof, Token::Eof) => true,
        (Token::Assign, Token::Assign) => true,
        (Token::Plus, Token::Plus) => true,
        (Token::Comma, Token::Comma) => true,
        (Token::Semicolon, Token::Semicolon) => true,
        (Token::Lparen, Token::Lparen) => true,
        (Token::Rparen, Token::Rparen) => true,
        (Token::Lbrace, Token::Lbrace) => true,
        (Token::Rbrace, Token::Rbrace) => true,
        (Token::Function, Token::Function) => true,
        (Token::Let, Token::Let) => true,
        (Token::Minus, Token::Minus) => true,
        (Token::Bang, Token::Bang) => true,
        (Token::Asterisk, Token::Asterisk) => true,
        (Token::Slash, Token::Slash) => true,
        (Token::Lt, Token::Lt) => true,
        (Token::Gt, Token::Gt) => true,
        (Token::If, Token::If) => true,
        (Token::Else, Token::Else) => true,
        (Token::Return, Token::Return) => true,
        (Token::True, Token::True) => true,
        (Token::False, Token::False) => true,
        (Token::Eq, Token::Eq) => true,
        (Token::NotEq, Token::NotEq) => true,
        _ => false,
    }
}

impl Parser {
    /// Builds a parser over `lexer`, pulling two tokens so that the
    /// current and peek tokens are populated.
    pub fn new(lexer: Lexer) -> (p: Parser)
        requires
            lexer.wf(),
        ensures
            p.wf(),
            p.stream() == spec_tokens_from(lexer.bytes(), lexer.pos()),
            p.stream_pos() == 0,
            p.errors@ == Seq::<ParseError>::empty(),
    {
        let mut lexer = lexer;
        let ghost s0 = spec_tokens_from(lexer.bytes(), lexer.pos());
        proof {
            lemma_lexer_pos_bounds(lexer);
            lemma_tokens_from_finite(lexer.bytes(), lexer.pos());
            assert(stream_suffix(s0, 0) =~= s0);
            lemma_stream_step(lexer.bytes(), lexer.pos(), s0, 0);
        }
        let current_token = lexer.next_token();
        proof {
            lemma_lexer_pos_bounds(lexer);
            lemma_stream_step(lexer.bytes(), lexer.pos(), s0, 1);
        }
        let peek_token = lexer.next_token();

        Parser {
            lexer,
            current_token,
            peek_token,
            errors: Vec::new(),
            toks: Ghost(s0),
            cursor: Ghost(0),
        }
    }

    /// Advances the window: the peek token becomes current, and a freshly
    /// pulled token becomes the peek token.
    pub fn next_token(&mut self)
        requires
            old(self).wf(),
        ensures
            final(self).wf(),
            final(self).stream() == old(self).stream(),
            final(self).stream_pos() == old(self).stream_pos() + 1,
            final(self).errors@ == old(self).errors@,
            final(self).current_token == old(self).peek_token,
            final(self).peek_token@ == tok_at(old(self).stream(), old(self).stream_pos() + 2),
    {
        proof {
            lemma_lexer_pos_bounds(self.lexer);
            lemma_stream_step(self.lexer.bytes(), self.lexer.pos(), self.toks@, self.cursor@ + 2);
        }
        self.current_token = self.lexer.next_token();
        core::mem::swap(&mut self.current_token, &mut self.peek_token);
        self.cursor = Ghost(self.cursor@ + 1);
    }

    /// Whether the current token has the given token's tag (payloads are
    /// ignored, so payload-carrying arguments act as tag sentinels).
    fn curr_token_is(&self, token: Token) -> (r: bool)
        ensures
            r == same_kind(self.current_token@, token@),
    {
        token_kind_eq(&self.current_token, &token)
    }

    /// Whether the peek token has the given token's tag.
    fn peek_token_is(&self, token: Token) -> (r: bool)
        ensures
            r == same_kind(self.peek_token@, token@),
    {
        token_kind_eq(&self.peek_token, &token)
    }

    /// If the peek token has the given tag, advances and reports success;
    /// otherwise leaves the window untouched and reports failure.
    fn expect_peek(&mut self, token: Token) -> (r: bool)
        requires
            old(self).wf(),
        ensures
            final(self).wf(),
            final(self).stream() == old(self).stream(),
            final(self).errors@ == old(self).errors@,
            r == same_kind(old(self).peek_token@, token@),
            r ==> final(self).stream_pos() == old(self).stream_pos() + 1
                && final(self).current_token == old(self).peek_token,
            !r ==> *final(self) == *old(self),
    {
        if self.peek_token_is(token) {
            self.next_token();
            return true;
        }
        false
    }
}

impl Parser {
    /// Parses one `let` statement, the current token being the `let`
    /// keyword: requires an identifier after the keyword and an assignment
    /// after the identifier, then scans to the closing semicolon. The
    /// value tokens are discarded: the statement's value is the empty
    /// placeholder. On a malformed statement, records one diagnostic and
    /// produces nothing.
    fn parse_let_statement(&mut self) -> (r: Option<Statement>)
        requires
            old(self).wf(),
        ensures
            let_step_post(*old(self), *final(self), r),
    {
        let ghost s = self.toks@;
        let ghost i = self.cursor@;
        let ghost errs0 = self.errors@;
        if !self.expect_peek(Token::Ident(String::new())) {
            let found = self.peek_token.clone();
            self.errors.push(ParseError::ExpectedIdentifier(found));
            proof {
                assert(errors_view(self.errors@) =~= errors_view(errs0).push(
                    SpecParseError::ExpectedIdentifier(tok_at(s, i + 1)),
                ));
            }
            return None;
        }
        let current_token = self.current_token.clone();
        if let Token::Ident(ident) = current_token {
            if !self.expect_peek(Token::Assign) {
                let found = self.peek_token.clone();
                self.errors.push(ParseError::ExpectedAssign(found));
                proof {
                    assert(errors_view(self.errors@) =~= errors_view(errs0).push(
                        SpecParseError::ExpectedAssign(tok_at(s, i + 2)),
                    ));
                }
                return None;
            }
            proof {
                lemma_semi_scan_end(s, i + 3);
            }
            let ghost j = semi_scan_end(s, i + 3);
            while !self.curr_token_is(Token::Semicolon) && !self.curr_token_is(Token::Eof)
                invariant
                    self.wf(),
                    self.toks@ == s,
                    self.errors@ == errs0,
                    0 <= i,
                    j == semi_scan_end(s, i + 3),
                    i + 3 <= j,
                    tok_at(s, j) is Semicolon || tok_at(s, j) is Eof,
                    tok_at(s, i + 2) is Assign,
                    i + 2 <= self.cursor@,
                    self.cursor@ == i + 2 || (i + 3 <= self.cursor@ <= j && semi_scan_end(
                        s,
                        self.cursor@,
                    ) == j),
                decreases j - self.cursor@,
            {
                self.next_token();
            }
            if self.curr_token_is(Token::Eof) {
                self.errors.push(ParseError::UnexpectedEndOfInput);
                proof {
                    assert(self.cursor@ == j);
                    assert(errors_view(self.errors@) =~= errors_view(errs0).push(
                        SpecParseError::UnexpectedEndOfInput,
                    ));
                }
                return None;
            }
            proof {
                assert(self.cursor@ == j);
            }
            let let_sta = Let { name: ident, value: Expression::Value(String::new()) };
            return Some(Statement::Let(let_sta));
        }
        // Unreachable: after the successful peek check the current token
        // is an identifier.
        proof {
            assert(false);
        }
        None
    }

    /// Parses one statement, dispatching on the current token's tag. Only
    /// the `let` keyword starts a statement; any other token produces
    /// nothing (there is no statement form for bare expressions yet).
    fn parse_statement(&mut self) -> (r: Option<Statement>)
        requires
            old(self).wf(),
        ensures
            parse_step_post(*old(self), *final(self), r),
    {
        let stat = match self.current_token {
            Token::Let => self.parse_let_statement(),
            _ => None,
        };

        stat
    }

    /// Parses statements until end-of-input and returns the program —
    /// always produced, possibly with zero statements: exactly the
    /// statements that [`spec_parse`] recognizes from the parser's
    /// position, with one diagnostic appended per malformed statement.
    pub fn parse_program(&mut self) -> (r: Option<Program>)
        requires
            old(self).wf(),
        ensures
            final(self).wf(),
            final(self).stream() == old(self).stream(),
            r matches Some(program) && program@ == spec_parse(
                old(self).stream(),
                old(self).stream_pos(),
            ).0,
            errors_view(final(self).errors@) == errors_view(old(self).errors@) + spec_parse(
                old(self).stream(),
                old(self).stream_pos(),
            ).1,
            final(self).current_token@ is Eof,
    {
        let ghost s = self.toks@;
        let ghost i0 = self.cursor@;
        let ghost errs0 = self.errors@;
        let mut program = Program { statements: vec![] };
        proof {
            assert(program@ =~= Seq::<SpecStatement>::empty());
        }
        while self.current_token != Token::Eof
            invariant
                self.wf(),
                self.toks@ == s,
                0 <= i0,
                spec_parse(s, i0).0 == program@ + spec_parse(s, self.cursor@).0,
                errors_view(errs0) + spec_parse(s, i0).1 == errors_view(self.errors@)
                    + spec_parse(s, self.cursor@).1,
            decreases s.len() + 2 - self.cursor@,
        {
            let ghost pre = *self;
            let ghost i = self.cursor@;
            let ghost prog0 = program@;
            let stat = self.parse_statement();
            let ghost mid = *self;
            let ghost stat_g = stat;
            if let Some(statement) = stat {
                program.statements.push(statement);
            }
            self.next_token();
            proof {
                assert(i < s.len());
                if stat_g is Some {
                    assert(program@ =~= prog0.push(stat_g->0@));
                }
                lemma_parse_loop_step(s, i, i0, pre, mid, stat_g, prog0, errs0, program@,
                    errors_view(self.errors@), self.cursor@);
            }
        }
        proof {
            assert(tok_at(s, self.cursor@) is Eof);
            assert(spec_parse(s, self.cursor@) == (
                Seq::<SpecStatement>::empty(),
                Seq::<SpecParseError>::empty(),
            ));
            assert(program@ + Seq::<SpecStatement>::empty() =~= program@);
            assert(errors_view(self.errors@) + Seq::<SpecParseError>::empty() =~= errors_view(
                self.errors@,
            ));
        }
        return Some(program);
    }
}

/// One iteration of the program-parsing loop preserves its invariants:
/// the statements and diagnostics gathered so far, plus what parsing
/// recognizes from the new cursor, equal what parsing recognizes from the
/// starting cursor.
#[verifier::spinoff_prover]
proof fn lemma_parse_loop_step(
    s: Seq<SpecToken>,
    i: int,
    i0: int,
    pre: Parser,
    mid: Parser,
    stat: Option<Statement>,
    prog0: Seq<SpecStatement>,
    errs0: Seq<ParseError>,
    prog1: Seq<SpecStatement>,
    ev1: Seq<SpecParseError>,
    cur1: int,
)
    requires
        pre.wf(),
        pre.stream() == s,
        pre.stream_pos() == i,
        0 <= i < s.len(),
        !(tok_at(s, i) is Eof),
        parse_step_post(pre, mid, stat),
        cur1 == mid.stream_pos() + 1,
        prog1 == if stat is Some {
            prog0.push(stat->0@)
        } else {
            prog0
        },
        ev1 == errors_view(mid.errors@),
        spec_parse(s, i0).0 == prog0 + spec_parse(s, i).0,
        errors_view(errs0) + spec_parse(s, i0).1 == errors_view(pre.errors@) + spec_parse(
            s,
            i,
        ).1,
    ensures
        spec_parse(s, i0).0 == prog1 + spec_parse(s, cur1).0,
        errors_view(errs0) + spec_parse(s, i0).1 == ev1 + spec_parse(s, cur1).1,
        i < cur1 <= s.len() + 1,
{
    let evp = errors_view(pre.errors@);
    if tok_at(s, i) is Let {
        match tok_at(s, i + 1) {
            SpecToken::Ident(name) => {
                if tok_at(s, i + 2) is Assign {
                    lemma_semi_scan_end(s, i + 3);
                    let j = semi_scan_end(s, i + 3);
                    if tok_at(s, j) is Semicolon {
                        let stmt = SpecStatement::Let(
                            SpecLet { name, value: SpecExpression::Value(Seq::empty()) },
                        );
                        assert(spec_parse(s, i).0 == seq![stmt] + spec_parse(s, j + 1).0);
                        assert(spec_parse(s, i).1 == spec_parse(s, j + 1).1);
                        assert(prog1 =~= prog0 + seq![stmt]);
                        assert((prog0 + seq![stmt]) + spec_parse(s, j + 1).0 =~= prog0 + (
                        seq![stmt] + spec_parse(s, j + 1).0));
                    } else {
                        let e = SpecParseError::UnexpectedEndOfInput;
                        assert(spec_parse(s, i).0 =~= Seq::<SpecStatement>::empty());
                        assert(spec_parse(s, i).1 =~= seq![e]);
                        assert(j >= s.len());
                        assert(tok_at(s, cur1) is Eof);
                        assert(spec_parse(s, cur1).0 =~= Seq::<SpecStatement>::empty());
                        assert(spec_parse(s, cur1).1 =~= Seq::<SpecParseError>::empty());
                        assert(ev1 =~= evp + seq![e]);
                        assert(prog1 + spec_parse(s, cur1).0 =~= prog0 + spec_parse(s, i).0);
                        assert((evp + seq![e]) + spec_parse(s, cur1).1 =~= evp + spec_parse(
                            s,
                            i,
                        ).1);
                    }
                } else {
                    let e = SpecParseError::ExpectedAssign(tok_at(s, i + 2));
                    assert(spec_parse(s, i).0 == spec_parse(s, i + 2).0);
                    assert(spec_parse(s, i).1 == seq![e] + spec_parse(s, i + 2).1);
                    assert(ev1 =~= evp + seq![e]);
                    assert((evp + seq![e]) + spec_parse(s, i + 2).1 =~= evp + (seq![e]
                        + spec_parse(s, i + 2).1));
                }
            },
            _ => {
                let e = SpecParseError::ExpectedIdentifier(tok_at(s, i + 1));
                assert(spec_parse(s, i).0 == spec_parse(s, i + 1).0);
                assert(spec_parse(s, i).1 == seq![e] + spec_parse(s, i + 1).1);
                assert(ev1 =~= evp + seq![e]);
                assert((evp + seq![e]) + spec_parse(s, i + 1).1 =~= evp + (seq![e] + spec_parse(
                    s,
                    i + 1,
                ).1));
            },
        }
    } else {
        assert(spec_parse(s, i).0 == spec_parse(s, i + 1).0);
        assert(spec_parse(s, i).1 == spec_parse(s, i + 1).1);
    }
}

} // verus!

