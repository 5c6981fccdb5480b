use intrus::ast::{Expression, Identifier, Operator, Statement};
use intrus::lexer::{Lexer, Token, Type};
use intrus::parser::Parser;

#[test]
fn literal_renders_source_text() {
    assert_eq!(Token::INT(42).literal(), "42");
    assert_eq!(Token::INT(0).literal(), "0");
    assert_eq!(Token::INT(u64::MAX).literal(), "18446744073709551615");
    assert_eq!(Token::ASSIGN.literal(), "=");
    assert_eq!(Token::EQUAL.literal(), "==");
    assert_eq!(Token::UNEQUAL.literal(), "!=");
    assert_eq!(Token::BOOL(true).literal(), "true");
    assert_eq!(Token::BOOL(false).literal(), "false");
    assert_eq!(Token::TYPE(Type::F32).literal(), "f32");
    assert_eq!(Token::TYPE(Type::U128).literal(), "u128");
    assert_eq!(Token::IDENT(String::from("abc")).literal(), "abc");
    assert_eq!(Token::FLT(String::from("1.0")).literal(), "1.0");
    assert_eq!(Token::LET.literal(), "let");
    assert_eq!(Token::FUNCTION.literal(), "fn");
    assert_eq!(Token::EOF.literal(), "EOF");
    assert_eq!(Token::ILLEGAL.literal(), "ILLEGAL");
}

#[test]
fn get_type_renders_category_labels() {
    assert_eq!(Token::LET.get_type(), "LET\t\t");
    assert_eq!(Token::IDENT(String::from("abc")).get_type(), "IDENT\t\t");
    assert_eq!(Token::INT(3).get_type(), "INTEGER\t\t");
    assert_eq!(Token::FLT(String::from("1.0")).get_type(), "FLOAT\t\t");
    assert_eq!(Token::BOOL(true).get_type(), "BOOLEAN\t\t");
    assert_eq!(Token::TYPE(Type::F32).get_type(), "F32");
    assert_eq!(Token::SUBTRACT.get_type(), "SUBTRACT\t");
    assert_eq!(Token::FUNCTION.get_type(), "FUNCTION\t");
}

#[test]
fn type_label_matches_display_names() {
    assert_eq!(Type::I128.label(), "I128");
    assert_eq!(Type::BOOL.label(), "BOOL");
    assert_eq!(Type::CHAR.label(), "CHAR");
}

#[test]
fn fatal_token_renders() {
    let fatal = Token::FATAL(String::from("1.2.3"));
    assert_eq!(fatal.literal(), "1.2.3");
    assert_eq!(fatal.get_type(), "FATAL\t\t");
}

#[test]
fn dup_copies_a_token() {
    let token = Token::IDENT(String::from("abc"));
    assert_eq!(token.dup(), token);
    assert_eq!(Token::INT(7).dup(), Token::INT(7));
    assert_eq!(Token::TYPE(Type::I8).dup(), Token::TYPE(Type::I8));
}

#[test]
fn program_token_literal_is_first_statement() {
    let lexer = Lexer::new("let x = 1; return 2;");
    let mut parser = Parser::new(lexer);
    let program = parser.parse_program().unwrap();
    assert_eq!(program.token_literal(), "x");
}

#[test]
fn empty_program_token_literal_is_empty() {
    let lexer = Lexer::new("   ");
    let mut parser = Parser::new(lexer);
    let program = parser.parse_program().unwrap();
    assert_eq!(program.token_literal(), "");
}

#[test]
fn statement_token_literal() {
    let invalid = Statement::Invalid;
    assert_eq!(invalid.token_literal(), "");
}

#[test]
fn expression_token_literal_reports_origin() {
    let identifier = Expression::Identifier(Identifier {
        token: Token::IDENT(String::from("lhs")),
        value: String::from("lhs"),
    });
    assert_eq!(identifier.token_literal(), "lhs");

    let literal = Expression::Literal(Token::INT(7));
    assert_eq!(literal.token_literal(), "7");

    let binary = Expression::Binary {
        lhs: Box::new(identifier),
        operator: Operator::Add,
        rhs: Box::new(literal),
    };
    assert_eq!(binary.token_literal(), "lhs");
}
