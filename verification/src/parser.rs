//! The parser: consumes tokens from the tokenizer through two-token
//! lookahead and builds a program, collecting diagnostics instead of
//! halting on recoverable mistakes.

use vstd::prelude::*;

use crate::ast::{
    Identifier, IdentifierV, LetStatement, LetStatementV, Program, ReturnStatement,
    ReturnStatementV, Statement, StatementV,
};
use crate::lexer::{literal_view, spec_token, lemma_spec_token, Lexer, Token, TokenV};

verus! {

// ---------------------------------------------------------------------------
// The parser, at the specification level
// ---------------------------------------------------------------------------

/// The parser's whole view of the world: the input text, the tokenizer's
/// scan offset, and the two lookahead slots.
pub ghost struct ParserState {
    pub src: Seq<char>,
    pub pos: nat,
    pub curr: TokenV,
    pub peek: TokenV,
}

/// What holds of every state the parser reaches: the scan offset stays
/// within the input, the look-ahead slot reads `Eof` only once the input is
/// spent, and once `Eof` is current every later token is `Eof` too.
pub open spec fn stream_wf(s: ParserState) -> bool {
    &&& s.pos <= s.src.len()
    &&& (s.peek is Eof ==> s.pos == s.src.len())
    &&& (s.curr is Eof ==> s.peek is Eof)
}

/// One shift of the lookahead: the peek slot becomes current and the
/// tokenizer yields a fresh token into peek.
pub open spec fn advance(s: ParserState) -> ParserState {
    ParserState {
        src: s.src,
        pos: spec_token(s.src, s.pos).1,
        curr: s.peek,
        peek: spec_token(s.src, s.pos).0,
    }
}

/// How much input the parser can still consume; strictly shrinks on every
/// shift until `Eof` is current.
pub open spec fn measure(s: ParserState) -> int {
    s.src.len() - s.pos + (if s.curr is Eof {
        0int
    } else {
        1int
    }) + (if s.peek is Eof {
        0int
    } else {
        1int
    })
}

pub proof fn lemma_advance(s: ParserState)
    requires
        stream_wf(s),
    ensures
        stream_wf(advance(s)),
        0 <= measure(advance(s)) <= measure(s),
        !(s.curr is Eof) ==> measure(advance(s)) < measure(s),
{
    lemma_spec_token(s.src, s.pos);
}

/// The defensive scan of a `let` statement: advance until the current token
/// is a semicolon; give up when the look-ahead reaches `Eof` first. True
/// means the semicolon was found.
pub open spec fn spec_let_scan(s: ParserState) -> (ParserState, bool)
    decreases measure(s),
    when stream_wf(s)
    via spec_let_scan_decreases
{
    if s.curr is Semi {
        (s, true)
    } else if s.peek is Eof {
        (s, false)
    } else {
        spec_let_scan(advance(s))
    }
}

#[via_fn]
proof fn spec_let_scan_decreases(s: ParserState) {
    if !(s.curr is Semi) && !(s.peek is Eof) {
        lemma_advance(s);
    }
}

/// The scan of a `return` statement: advance until the current token is a
/// semicolon or `Eof`; reaching `Eof` is accepted silently.
pub open spec fn spec_return_scan(s: ParserState) -> ParserState
    decreases measure(s),
    when stream_wf(s)
    via spec_return_scan_decreases
{
    if !(s.curr is Semi) && !(s.curr is Eof) {
        spec_return_scan(advance(s))
    } else {
        s
    }
}

#[via_fn]
proof fn spec_return_scan_decreases(s: ParserState) {
    if !(s.curr is Semi) && !(s.curr is Eof) {
        lemma_advance(s);
    }
}

/// Parsing a `let` statement, as a function of the parser state: the state
/// reached, the statement produced if any, and the diagnostics appended.
/// The current token is `Let`. The look-ahead must hold the identifier and
/// then the assignment; on failure the statement is dropped with one
/// diagnostic and the state is left for the caller's unconditional shift.
pub open spec fn spec_parse_let(s: ParserState) -> (ParserState, Option<
    LetStatementV,
>, Seq<Seq<char>>) {
    if !(s.peek is Ident) {
        (s, None, seq!["missing identifier"@])
    } else {
        let s1 = advance(s);
        if !(s1.peek is Assign) {
            (s1, None, seq!["missing assignment"@])
        } else {
            let stmt = LetStatementV {
                token: s1.curr,
                name: IdentifierV { token: s1.curr, value: literal_view(s1.curr) },
                value: None,
            };
            let (s2, found_semi) = spec_let_scan(s1);
            if found_semi {
                (s2, Some(stmt), Seq::<Seq<char>>::empty())
            } else {
                (s2, None, seq!["missing semicolon"@])
            }
        }
    }
}

/// Parsing one statement: dispatch on the current token. Anything that is
/// not a statement keyword yields no statement and no diagnostic.
pub open spec fn spec_parse_statement(s: ParserState) -> (ParserState, Option<
    StatementV,
>, Seq<Seq<char>>) {
    if s.curr is Let {
        let (s1, stmt, errs) = spec_parse_let(s);
        (
            s1,
            match stmt {
                Some(ls) => Some(StatementV::Let(ls)),
                None => None,
            },
            errs,
        )
    } else if s.curr is Return {
        (
            spec_return_scan(s),
            Some(StatementV::Return(ReturnStatementV { token: s.curr, return_val: None })),
            Seq::<Seq<char>>::empty(),
        )
    } else {
        (s, None, Seq::<Seq<char>>::empty())
    }
}

proof fn lemma_let_scan(s: ParserState)
    requires
        stream_wf(s),
    ensures
        stream_wf(spec_let_scan(s).0),
        spec_let_scan(s).0 == s || measure(spec_let_scan(s).0) < measure(s),
    decreases measure(s),
{
    if !(s.curr is Semi) && !(s.peek is Eof) {
        lemma_advance(s);
        lemma_let_scan(advance(s));
    }
}

proof fn lemma_return_scan(s: ParserState)
    requires
        stream_wf(s),
    ensures
        stream_wf(spec_return_scan(s)),
        spec_return_scan(s) == s || measure(spec_return_scan(s)) < measure(s),
    decreases measure(s),
{
    if !(s.curr is Semi) && !(s.curr is Eof) {
        lemma_advance(s);
        lemma_return_scan(advance(s));
    }
}

proof fn lemma_parse_statement(s: ParserState)
    requires
        stream_wf(s),
    ensures
        stream_wf(spec_parse_statement(s).0),
        spec_parse_statement(s).0 == s || measure(spec_parse_statement(s).0) < measure(s),
{
    if s.curr is Let {
        if s.peek is Ident {
            lemma_advance(s);
            lemma_let_scan(advance(s));
        }
    } else if s.curr is Return {
        lemma_return_scan(s);
    }
}

/// Parsing a whole program: dispatch on the current token, append the
/// statement if one was produced, shift unconditionally, and repeat until
/// `Eof` is current.
pub open spec fn spec_parse_program(s: ParserState) -> (ParserState, Seq<StatementV>, Seq<
    Seq<char>,
>)
    decreases measure(s),
    when stream_wf(s)
    via spec_parse_program_decreases
{
    if s.curr is Eof {
        (s, Seq::<StatementV>::empty(), Seq::<Seq<char>>::empty())
    } else {
        let (s1, stmt, errs) = spec_parse_statement(s);
        let s2 = advance(s1);
        let (s3, stmts, more_errs) = spec_parse_program(s2);
        let all = match stmt {
            Some(st) => seq![st] + stmts,
            None => stmts,
        };
        (s3, all, errs + more_errs)
    }
}

#[via_fn]
proof fn spec_parse_program_decreases(s: ParserState) {
    if !(s.curr is Eof) {
        lemma_parse_statement(s);
        lemma_advance(spec_parse_statement(s).0);
    }
}

// ---------------------------------------------------------------------------
// The executable parser
// ---------------------------------------------------------------------------

/// The parser. It owns the tokenizer, holds exactly two lookahead slots,
/// and accumulates diagnostics into an ordered, exposed list.
pub struct Parser {
    lexer: Lexer,
    curr_token: Token,
    peek_token: Token,
    /// The ordered diagnostics collected so far; read after parsing.
    pub errors: Vec<String>,
}

impl Parser {
    /// The parser's state: input text, scan offset, and the two lookahead
    /// slots.
    pub closed spec fn state(&self) -> ParserState {
        ParserState {
            src: self.lexer.src(),
            pos: self.lexer.pos(),
            curr: self.curr_token@,
            peek: self.peek_token@,
        }
    }

    /// The diagnostics collected so far, as text.
    pub closed spec fn errs(&self) -> Seq<Seq<char>> {
        self.errors@.map(|i: int, e: String| e@)
    }

    pub closed spec fn wf(&self) -> bool {
        &&& self.lexer.wf()
        &&& stream_wf(self.state())
    }

    /// Primes both lookahead slots with the first two tokens, pushing out
    /// the garbage tokens they are initialized with.
    pub fn new(lexer: Lexer) -> (parser: Parser)
        requires
            lexer.wf(),
        ensures
            parser.wf(),
            parser.errs() == Seq::<Seq<char>>::empty(),
            parser.state() == advance(
                advance(
                    ParserState {
                        src: lexer.src(),
                        pos: lexer.pos(),
                        curr: TokenV::Illegal,
                        peek: TokenV::Illegal,
                    },
                ),
            ),
    {
        let mut parser = Parser {
            lexer,
            // garbage tokens for init, pushed out immediately
            curr_token: Token::ILLEGAL,
            peek_token: Token::ILLEGAL,
            errors: Vec::new(),
        };
        proof {
            assert(parser.errs() =~= Seq::<Seq<char>>::empty());
            parser.lexer.lemma_wf_bounds();
        }
        // set both slots to the first two tokens
        parser.next_token();
        parser.next_token();
        parser
    }

    /// Shifts peek into current and pulls a fresh token from the tokenizer
    /// into peek.
    fn next_token(&mut self)
        requires
            old(self).wf(),
        ensures
            final(self).wf(),
            final(self).state() == advance(old(self).state()),
            final(self).errors == old(self).errors,
    {
        proof {
            lemma_advance(self.state());
        }
        self.curr_token = self.peek_token.dup();
        self.peek_token = self.lexer.next_token();
    }

    /// Parses statements until `Eof` is current, appending each statement
    /// produced and collecting a diagnostic for each statement dropped.
    /// Parsing a program never fails globally: the result is always present,
    /// and partial or empty results show in the statement list and the
    /// diagnostics.
    pub fn parse_program(&mut self) -> (program: Option<Program>)
        requires
            old(self).wf(),
        ensures
            final(self).wf(),
            ({
                let (end_state, stmts, errs) = spec_parse_program(old(self).state());
                &&& final(self).state() == end_state
                &&& final(self).errs() == old(self).errs() + errs
                &&& match program {
                    Some(prog) => prog@ == stmts,
                    None => false,
                }
            }),
    {
        let mut program = Program { statements: Vec::new() };
        let ghost base = self.errs();
        let ghost orig = self.state();
        proof {
            assert(program@ =~= Seq::<StatementV>::empty());
            assert(self.errs().subrange(0, base.len() as int) =~= base);
            assert(self.errs().skip(base.len() as int) =~= Seq::<Seq<char>>::empty());
        }
        loop
            invariant
                self.wf(),
                self.errs().len() >= base.len(),
                self.errs().subrange(0, base.len() as int) == base,
                spec_parse_program(orig).0 == spec_parse_program(self.state()).0,
                spec_parse_program(orig).1 == program@ + spec_parse_program(self.state()).1,
                spec_parse_program(orig).2 == self.errs().skip(base.len() as int)
                    + spec_parse_program(self.state()).2,
            ensures
                self.wf(),
                self.errs().len() >= base.len(),
                self.errs().subrange(0, base.len() as int) == base,
                self.state().curr is Eof,
                spec_parse_program(orig).0 == spec_parse_program(self.state()).0,
                spec_parse_program(orig).1 == program@ + spec_parse_program(self.state()).1,
                spec_parse_program(orig).2 == self.errs().skip(base.len() as int)
                    + spec_parse_program(self.state()).2,
            decreases measure(self.state()),
        {
            if matches!(self.curr_token, Token::EOF) {
                break ;
            }
            let ghost before = self.state();
            let ghost errs_before = self.errs();
            let ghost prog_before = program@;
            proof {
                lemma_parse_statement(before);
            }
            let statement = self.parse_statement();
            if let Some(statement) = statement {
                program.statements.push(statement);
            }
            proof {
                let (s1, stmt, errs1) = spec_parse_statement(before);
                assert(program@ =~= (match stmt {
                    Some(st) => prog_before.push(st),
                    None => prog_before,
                }));
                lemma_advance(s1);
            }
            self.next_token();
            proof {
                let (s1, stmt, errs1) = spec_parse_statement(before);
                let (s3, stmts, more_errs) = spec_parse_program(advance(s1));
                // one unfolding of the program parse at `before`
                assert(spec_parse_program(before).0 == s3);
                assert(spec_parse_program(before).1 == (match stmt {
                    Some(st) => seq![st] + stmts,
                    None => stmts,
                }));
                assert(spec_parse_program(before).2 == errs1 + more_errs);
                assert(spec_parse_program(orig).1 =~= program@ + stmts);
                assert(self.errs() =~= errs_before + errs1);
                assert(self.errs().subrange(0, base.len() as int) =~= base);
                assert(self.errs().skip(base.len() as int) =~= errs_before.skip(
                    base.len() as int,
                ) + errs1);
                assert(spec_parse_program(orig).2 =~= self.errs().skip(base.len() as int)
                    + more_errs);
            }
        }
        proof {
            let ghost fin = self.errs();
            assert(spec_parse_program(self.state()).1 =~= Seq::<StatementV>::empty());
            assert(spec_parse_program(orig).1 =~= program@);
            assert(spec_parse_program(orig).2 =~= fin.skip(base.len() as int));
            assert(fin =~= base + fin.skip(base.len() as int));
        }
        Some(program)
    }

    /// Single-token dispatch: `let` and `return` statements are parsed;
    /// any other statement-leading token yields no statement and, for now,
    /// no diagnostic.
    fn parse_statement(&mut self) -> (r: Option<Statement>)
        requires
            old(self).wf(),
        ensures
            final(self).wf(),
            ({
                let (s1, stmt, errs) = spec_parse_statement(old(self).state());
                &&& final(self).state() == s1
                &&& final(self).errs() == old(self).errs() + errs
                &&& match (r, stmt) {
                    (Some(st), Some(sv)) => st@ == sv,
                    (None, None) => true,
                    _ => false,
                }
            }),
    {
        match self.curr_token {
            Token::LET => {
                let statement = match self.parse_let_statement() {
                    Some(let_statement) => Statement::Let(Box::new(let_statement)),
                    None => {
                        return None;
                    },
                };
                Some(statement)
            },
            Token::RETURN => {
                let statement = match self.parse_return_statement() {
                    Some(return_statement) => Statement::Return(Box::new(return_statement)),
                    None => {
                        return None;
                    },
                };
                Some(statement)
            },
            _ => {
                proof {
                    assert(self.errs() =~= old(self).errs() + Seq::<Seq<char>>::empty());
                }
                None
            },
        }
    }

    /// Parses a `let` statement: the look-ahead must hold the identifier,
    /// then the assignment; the statement is then built from the identifier
    /// and the scan hunts for the terminating semicolon. The value is
    /// always left absent: expression parsing is not yet populated.
    fn parse_let_statement(&mut self) -> (r: Option<LetStatement>)
        requires
            old(self).wf(),
            old(self).state().curr is Let,
        ensures
            final(self).wf(),
            ({
                let (s1, stmt, errs) = spec_parse_let(old(self).state());
                &&& final(self).state() == s1
                &&& final(self).errs() == old(self).errs() + errs
                &&& match (r, stmt) {
                    (Some(st), Some(sv)) => st@ == sv,
                    (None, None) => true,
                    _ => false,
                }
            }),
    {
        if !self.expect_peek_ident() {
            self.errors.push("missing identifier".to_owned());
            proof {
                assert(self.errs() =~= old(self).errs() + seq!["missing identifier"@]);
            }
            return None;
        }
        let peek_is_assign = matches!(self.peek_token, Token::ASSIGN);
        if !peek_is_assign {
            self.errors.push("missing assignment".to_owned());
            proof {
                assert(self.errs() =~= old(self).errs() + seq!["missing assignment"@]);
            }
            return None;
        }
        let statement = LetStatement {
            token: self.curr_token.dup(),
            name: Box::new(
                Identifier { token: self.curr_token.dup(), value: self.curr_token.literal() },
            ),
            value: None,
        };
        let ghost s1 = self.state();
        loop
            invariant
                self.wf(),
                self.errors == old(self).errors,
                spec_let_scan(s1) == spec_let_scan(self.state()),
            ensures
                self.wf(),
                self.errors == old(self).errors,
                spec_let_scan(s1) == (self.state(), self.state().curr is Semi),
            decreases measure(self.state()),
        {
            if matches!(self.curr_token, Token::SEMI) {
                break ;
            }
            if matches!(self.peek_token, Token::EOF) {
                break ;
            }
            proof {
                lemma_advance(self.state());
            }
            self.next_token();
        }
        if matches!(self.curr_token, Token::SEMI) {
            proof {
                assert(self.errs() =~= old(self).errs() + Seq::<Seq<char>>::empty());
            }
            Some(statement)
        } else {
            self.errors.push("missing semicolon".to_owned());
            proof {
                assert(self.errs() =~= old(self).errs() + seq!["missing semicolon"@]);
            }
            None
        }
    }

    /// Parses a `return` statement, then scans forward to the terminating
    /// semicolon; reaching end of input instead is accepted silently. The
    /// value is always left absent: expression parsing is not yet
    /// populated.
    fn parse_return_statement(&mut self) -> (r: Option<ReturnStatement>)
        requires
            old(self).wf(),
            old(self).state().curr is Return,
        ensures
            final(self).wf(),
            final(self).state() == spec_return_scan(old(self).state()),
            final(self).errors == old(self).errors,
            match r {
                Some(st) => st@ == ReturnStatementV {
                    token: old(self).state().curr,
                    return_val: None,
                },
                None => false,
            },
    {
        let statement = ReturnStatement { token: self.curr_token.dup(), return_val: None };
        let ghost s0 = self.state();
        loop
            invariant
                self.wf(),
                self.errors == old(self).errors,
                spec_return_scan(s0) == spec_return_scan(self.state()),
            ensures
                self.wf(),
                self.errors == old(self).errors,
                spec_return_scan(s0) == self.state(),
            decreases measure(self.state()),
        {
            if matches!(self.curr_token, Token::SEMI) || matches!(self.curr_token, Token::EOF) {
                break ;
            }
            proof {
                lemma_advance(self.state());
            }
            self.next_token();
        }
        Some(statement)
    }

    /// Advances exactly when the look-ahead holds an identifier; otherwise
    /// returns false and leaves the state unchanged.
    fn expect_peek_ident(&mut self) -> (b: bool)
        requires
            old(self).wf(),
        ensures
            final(self).wf(),
            final(self).errors == old(self).errors,
            b == (old(self).state().peek is Ident),
            b ==> final(self).state() == advance(old(self).state()),
            !b ==> *final(self) == *old(self),
    {
        match self.peek_token {
            Token::IDENT(_) => {
                self.next_token();
                true
            },
            _ => false,
        }
    }
}

} // verus!
