//! The abstract syntax tree: the in-memory representation of a parsed
//! program. Pure data with derived queries; the parser alone constructs
//! well-formed nodes.

use vstd::prelude::*;

use crate::lexer::{literal_view, Token, TokenV};

verus! {

/// An operator an expression node may carry. The grammar recognizes
/// statement boundaries but does not yet build expression subtrees, so no
/// parsed node carries one of these; the set anticipates the full
/// expression grammar.
#[derive(Debug, PartialEq, Eq, Structural, Clone, Copy)]
pub enum Operator {
    Add,
    Sub,
    Mul,
    Div,
    // Binary operators
    AND,
    OR,
    NOT,
    XOR,
    NAND,
    NOR,
    NXOR,
    LShift,
    RShift,
    // Comparison operators
    Eq,
    NotEq,
    LessThan,
    GreatThan,
    LTEq,
    GTEq,
    // Comparison logic operators
    LogicAND,
    LogicOR,
    LogicXOR,
    LogicNAND,
    LogicNOR,
    LogicXNOR,
}

/// An identifier node: the originating token and the decoded name.
#[derive(Debug, PartialEq, Clone)]
pub struct Identifier {
    pub token: Token,
    pub value: String,
}

/// The mathematical shadow of `Identifier`.
pub ghost struct IdentifierV {
    pub token: TokenV,
    pub value: Seq<char>,
}

impl View for Identifier {
    type V = IdentifierV;

    open spec fn view(&self) -> IdentifierV {
        IdentifierV { token: self.token@, value: self.value@ }
    }
}

/// An expression node: a closed sum over the presently known and
/// anticipated expression kinds. The current grammar constructs none of
/// these; the type is the extension point for expression parsing.
#[derive(Debug, PartialEq)]
pub enum Expression {
    Identifier(Identifier),
    Literal(Token),
    Binary { lhs: Box<Expression>, operator: Operator, rhs: Box<Expression> },
}

/// The mathematical shadow of `Expression`.
pub ghost enum ExpressionV {
    Identifier(IdentifierV),
    Literal(TokenV),
    Binary { lhs: Box<ExpressionV>, operator: Operator, rhs: Box<ExpressionV> },
}

/// The shadow of an expression node, kind for kind.
pub open spec fn expr_view(e: Expression) -> ExpressionV
    decreases e,
{
    match e {
        Expression::Identifier(id) => ExpressionV::Identifier(id@),
        Expression::Literal(t) => ExpressionV::Literal(t@),
        Expression::Binary { lhs, operator, rhs } => ExpressionV::Binary {
            lhs: Box::new(expr_view(*lhs)),
            operator,
            rhs: Box::new(expr_view(*rhs)),
        },
    }
}

impl View for Expression {
    type V = ExpressionV;

    open spec fn view(&self) -> ExpressionV {
        expr_view(*self)
    }
}

/// The literal of the token an expression node originates from; a binary
/// operation reports its left operand's.
pub open spec fn expr_token_literal(e: ExpressionV) -> Seq<char>
    decreases e,
{
    match e {
        ExpressionV::Identifier(id) => literal_view(id.token),
        ExpressionV::Literal(t) => literal_view(t),
        ExpressionV::Binary { lhs, .. } => expr_token_literal(*lhs),
    }
}

impl Expression {
    /// Every expression node reports its originating token's literal.
    pub fn token_literal(&self) -> (r: String)
        ensures
            r@ == expr_token_literal(self@),
        decreases self,
    {
        match self {
            Expression::Identifier(id) => id.token.literal(),
            Expression::Literal(t) => t.literal(),
            Expression::Binary { lhs, .. } => lhs.token_literal(),
        }
    }
}

/// A `let` statement: the originating token, the owned name, and an
/// optional value expression. The current grammar always leaves the value
/// absent: expression parsing is not yet populated.
#[derive(Debug, PartialEq)]
pub struct LetStatement {
    pub token: Token,
    pub name: Box<Identifier>,
    pub value: Option<Box<Expression>>,
}

/// The mathematical shadow of `LetStatement`.
pub ghost struct LetStatementV {
    pub token: TokenV,
    pub name: IdentifierV,
    pub value: Option<ExpressionV>,
}

impl View for LetStatement {
    type V = LetStatementV;

    open spec fn view(&self) -> LetStatementV {
        LetStatementV {
            token: self.token@,
            name: self.name@,
            value: match self.value {
                Some(e) => Some(e@),
                None => None,
            },
        }
    }
}

/// A `return` statement: the originating token and an optional value
/// expression, always absent under the current grammar.
#[derive(Debug, PartialEq)]
pub struct ReturnStatement {
    pub token: Token,
    pub return_val: Option<Box<Expression>>,
}

/// The mathematical shadow of `ReturnStatement`.
pub ghost struct ReturnStatementV {
    pub token: TokenV,
    pub return_val: Option<ExpressionV>,
}

impl View for ReturnStatement {
    type V = ReturnStatementV;

    open spec fn view(&self) -> ReturnStatementV {
        ReturnStatementV {
            token: self.token@,
            return_val: match self.return_val {
                Some(e) => Some(e@),
                None => None,
            },
        }
    }
}

/// A statement. `Invalid` denotes a statement that failed to parse; it
/// carries no payload and is never inserted into a program.
#[derive(Debug, PartialEq)]
pub enum Statement {
    Let(Box<LetStatement>),
    Return(Box<ReturnStatement>),
    Invalid,
}

/// The mathematical shadow of `Statement`.
pub ghost enum StatementV {
    Let(LetStatementV),
    Return(ReturnStatementV),
    Invalid,
}

impl View for Statement {
    type V = StatementV;

    open spec fn view(&self) -> StatementV {
        match self {
            Statement::Let(ls) => StatementV::Let(ls@),
            Statement::Return(rs) => StatementV::Return(rs@),
            Statement::Invalid => StatementV::Invalid,
        }
    }
}

/// The literal of the token a statement originates from; empty for an
/// invalid statement.
pub open spec fn stmt_token_literal(s: StatementV) -> Seq<char> {
    match s {
        StatementV::Let(ls) => literal_view(ls.token),
        StatementV::Return(rs) => literal_view(rs.token),
        StatementV::Invalid => Seq::<char>::empty(),
    }
}

impl Statement {
    /// The literal of this statement's originating token.
    pub fn token_literal(&self) -> (r: String)
        ensures
            r@ == stmt_token_literal(self@),
    {
        match self {
            Statement::Let(ls) => ls.token.literal(),
            Statement::Return(rs) => rs.token.literal(),
            Statement::Invalid => String::new(),
        }
    }
}

/// A parsed program: an ordered sequence of statements, in their textual
/// order of appearance.
#[derive(Debug, PartialEq)]
pub struct Program {
    pub statements: Vec<Statement>,
}

impl View for Program {
    type V = Seq<StatementV>;

    open spec fn view(&self) -> Seq<StatementV> {
        self.statements@.map(|i: int, s: Statement| s@)
    }
}

impl Program {
    /// The literal of the first statement's token; the empty string when
    /// the program has no statements.
    pub fn token_literal(&self) -> (r: String)
        ensures
            r@ == if self@.len() > 0 {
                stmt_token_literal(self@[0])
            } else {
                Seq::<char>::empty()
            },
    {
        if self.statements.len() > 0 {
            self.statements[0].token_literal()
        } else {
            String::new()
        }
    }
}

} // verus!
