use intrus::ast::Statement;
use intrus::lexer::{Lexer, Token, Type};
use intrus::parser::Parser;

fn tokens_of(input: &str) -> Vec<Token> {
    let mut lexer = Lexer::new(input);
    let mut tokens = Vec::new();
    loop {
        let token = lexer.next_token();
        let done = token == Token::EOF;
        tokens.push(token);
        if done {
            return tokens;
        }
    }
}

fn parse(input: &str) -> (intrus::ast::Program, Vec<String>) {
    let lexer = Lexer::new(input);
    let mut parser = Parser::new(lexer);
    let program = parser.parse_program().expect("parsing always yields a program");
    (program, parser.errors)
}

#[test]
fn tokenize_let_statement() {
    let mut lexer = Lexer::new("let xes = 1;");
    assert_eq!(lexer.next_token(), Token::LET);
    assert_eq!(lexer.next_token(), Token::IDENT(String::from("xes")));
    assert_eq!(lexer.next_token(), Token::ASSIGN);
    assert_eq!(lexer.next_token(), Token::INT(1));
    assert_eq!(lexer.next_token(), Token::SEMI);
    assert_eq!(lexer.next_token(), Token::EOF);
    // every subsequent call keeps returning EOF
    assert_eq!(lexer.next_token(), Token::EOF);
    assert_eq!(lexer.next_token(), Token::EOF);
    assert_eq!(lexer.next_token(), Token::EOF);
}

#[test]
fn tokenize_float_literal() {
    let tokens = tokens_of("let yes = 1.0;");
    assert_eq!(tokens[3], Token::FLT(String::from("1.0")));
}

#[test]
fn two_char_operators_are_single_tokens() {
    assert_eq!(tokens_of("!="), vec![Token::UNEQUAL, Token::EOF]);
    assert_eq!(tokens_of("!"), vec![Token::NOT, Token::EOF]);
    assert_eq!(tokens_of("=="), vec![Token::EQUAL, Token::EOF]);
    assert_eq!(tokens_of("="), vec![Token::ASSIGN, Token::EOF]);
    assert_eq!(tokens_of("! ="), vec![Token::NOT, Token::ASSIGN, Token::EOF]);
}

#[test]
fn whitespace_only_input_yields_eof_first() {
    let mut lexer = Lexer::new("  \t\r\n   \t");
    assert_eq!(lexer.next_token(), Token::EOF);
}

#[test]
fn empty_input_yields_eof_first() {
    let mut lexer = Lexer::new("");
    assert_eq!(lexer.next_token(), Token::EOF);
}

#[test]
fn retokenizing_fresh_lexer_is_identical() {
    let input = "let a = 4; return b != 1.5e3; @ #";
    let first = tokens_of(input);
    let second = tokens_of(input);
    assert_eq!(first, second);
}

#[test]
fn parse_three_let_statements() {
    let (program, errors) = parse("let x = 4;\nlet y = 10;\nlet foobar = 838383;\n");
    assert!(errors.is_empty());
    assert_eq!(program.statements.len(), 3);
    let names = ["x", "y", "foobar"];
    for (statement, expected) in program.statements.iter().zip(names.iter()) {
        match statement {
            Statement::Let(let_statement) => {
                assert_eq!(let_statement.name.value, *expected);
                assert_eq!(let_statement.token, Token::IDENT(String::from(*expected)));
                assert!(let_statement.value.is_none());
            },
            other => panic!("expected a let statement, got {:?}", other),
        }
    }
}

#[test]
fn parse_malformed_let_statements() {
    let (program, errors) = parse("let x 4;\nlet = 10;\nlet 838383;\n");
    assert_eq!(program.statements.len(), 0);
    assert_eq!(
        errors,
        vec![
            String::from("missing assignment"),
            String::from("missing identifier"),
            String::from("missing identifier"),
        ]
    );
}

#[test]
fn parse_three_return_statements() {
    let (program, errors) = parse("return 5;\nreturn 1;\n return 1020;");
    assert!(errors.is_empty());
    assert_eq!(program.statements.len(), 3);
    for statement in &program.statements {
        match statement {
            Statement::Return(return_statement) => {
                assert_eq!(return_statement.token, Token::RETURN);
                assert!(return_statement.return_val.is_none());
            },
            other => panic!("expected a return statement, got {:?}", other),
        }
    }
}

#[test]
fn parse_let_missing_semicolon() {
    let (program, errors) = parse("let a = 1");
    assert_eq!(program.statements.len(), 0);
    assert_eq!(errors, vec![String::from("missing semicolon")]);
}

#[test]
fn parse_return_accepts_missing_semicolon() {
    let (program, errors) = parse("return 5");
    assert!(errors.is_empty());
    assert_eq!(program.statements.len(), 1);
}

#[test]
fn unrecognized_statement_tokens_drop_silently() {
    // tokens that start no statement form produce neither a statement nor
    // a diagnostic
    let (program, errors) = parse("5; + ; let a = 1;");
    assert!(errors.is_empty());
    assert_eq!(program.statements.len(), 1);
    match &program.statements[0] {
        Statement::Let(let_statement) => assert_eq!(let_statement.name.value, "a"),
        other => panic!("expected a let statement, got {:?}", other),
    }
}

#[test]
fn keywords_resolve() {
    assert_eq!(
        tokens_of("fn let while if return true false"),
        vec![
            Token::FUNCTION,
            Token::LET,
            Token::WHILE,
            Token::IF,
            Token::RETURN,
            Token::BOOL(true),
            Token::BOOL(false),
            Token::EOF,
        ]
    );
}

#[test]
fn type_keywords_resolve_with_aliases() {
    assert_eq!(
        tokens_of("f32 single f64 double u8 byte bool u1 bit"),
        vec![
            Token::TYPE(Type::F32),
            Token::TYPE(Type::F32),
            Token::TYPE(Type::F64),
            Token::TYPE(Type::F64),
            Token::TYPE(Type::U8),
            Token::TYPE(Type::U8),
            Token::TYPE(Type::BOOL),
            Token::TYPE(Type::BOOL),
            Token::TYPE(Type::BOOL),
            Token::EOF,
        ]
    );
    assert_eq!(
        tokens_of("i8 i16 i32 i64 i128 u16 u32 u64 u128 char"),
        vec![
            Token::TYPE(Type::I8),
            Token::TYPE(Type::I16),
            Token::TYPE(Type::I32),
            Token::TYPE(Type::I64),
            Token::TYPE(Type::I128),
            Token::TYPE(Type::U16),
            Token::TYPE(Type::U32),
            Token::TYPE(Type::U64),
            Token::TYPE(Type::U128),
            Token::TYPE(Type::CHAR),
            Token::EOF,
        ]
    );
}

#[test]
fn operators_and_delimiters_resolve() {
    assert_eq!(
        tokens_of("+ - * / % ^ < > , ; ( ) { } [ ]"),
        vec![
            Token::ADD,
            Token::SUBTRACT,
            Token::MULTIPLY,
            Token::DIVIDE,
            Token::MODULO,
            Token::RAISE,
            Token::LTHAN,
            Token::GTHAN,
            Token::COMMA,
            Token::SEMI,
            Token::LPAREN,
            Token::RPAREN,
            Token::LBRACE,
            Token::RBRACE,
            Token::LBRACK,
            Token::RBRACK,
            Token::EOF,
        ]
    );
}

#[test]
fn integer_literals_decode() {
    assert_eq!(tokens_of("42"), vec![Token::INT(42), Token::EOF]);
    assert_eq!(tokens_of("007"), vec![Token::INT(7), Token::EOF]);
    assert_eq!(
        tokens_of("18446744073709551615"),
        vec![Token::INT(u64::MAX), Token::EOF]
    );
}

#[test]
fn overflowing_integer_is_fatal() {
    assert_eq!(
        tokens_of("18446744073709551616"),
        vec![Token::FATAL(String::from("18446744073709551616")), Token::EOF]
    );
}

#[test]
fn non_ascii_digits_are_fatal() {
    // a run that starts with an ASCII digit but mixes in other numerals
    // cannot be decoded as an unsigned integer
    assert_eq!(
        tokens_of("1\u{0661}"),
        vec![Token::FATAL(String::from("1\u{0661}")), Token::EOF]
    );
}

#[test]
fn float_literals_classify() {
    assert_eq!(tokens_of(".5"), vec![Token::FLT(String::from(".5")), Token::EOF]);
    assert_eq!(tokens_of("1."), vec![Token::FLT(String::from("1.")), Token::EOF]);
    assert_eq!(tokens_of("1.5e3"), vec![Token::FLT(String::from("1.5e3")), Token::EOF]);
    assert_eq!(tokens_of("1.5E03"), vec![Token::FLT(String::from("1.5E03")), Token::EOF]);
}

#[test]
fn malformed_float_literals_are_fatal() {
    assert_eq!(tokens_of("."), vec![Token::FATAL(String::from(".")), Token::EOF]);
    assert_eq!(tokens_of("1.2.3"), vec![Token::FATAL(String::from("1.2.3")), Token::EOF]);
    assert_eq!(tokens_of("1.5e"), vec![Token::FATAL(String::from("1.5e")), Token::EOF]);
    assert_eq!(tokens_of("1.x"), vec![Token::FATAL(String::from("1.x")), Token::EOF]);
}

#[test]
fn digit_led_words_classify() {
    // permissive by design: a run may start with a digit and still be an
    // identifier, as long as it is alphanumeric throughout
    assert_eq!(tokens_of("1x"), vec![Token::IDENT(String::from("1x")), Token::EOF]);
    assert_eq!(tokens_of("1_2"), vec![Token::ILLEGAL, Token::EOF]);
}

#[test]
fn unicode_identifiers_survive() {
    assert_eq!(
        tokens_of("h\u{00e9}llo"),
        vec![Token::IDENT(String::from("h\u{00e9}llo")), Token::EOF]
    );
}

#[test]
fn unrecognized_characters_are_illegal() {
    assert_eq!(tokens_of("@"), vec![Token::ILLEGAL, Token::EOF]);
    assert_eq!(tokens_of("#"), vec![Token::ILLEGAL, Token::EOF]);
}

#[test]
fn underscore_starts_an_identifier() {
    assert_eq!(tokens_of("_foo"), vec![Token::IDENT(String::from("_foo")), Token::EOF]);
}
