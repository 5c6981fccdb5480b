//! The tokenizer: turns raw source text into a stream of lexical tokens,
//! one token per call, on demand.

use vstd::prelude::*;

verus! {

// ---------------------------------------------------------------------------
// Character classes
// ---------------------------------------------------------------------------

/// Whitespace that the tokenizer skips between tokens.
pub open spec fn ws(c: char) -> bool {
    c == ' ' || c == '\t' || c == '\n' || c == '\r'
}

/// ASCII decimal digit.
pub open spec fn digit(c: char) -> bool {
    48 <= c as u32 && c as u32 <= 57
}

/// Whether the character is in one of Unicode's letter or number categories,
/// as `char::is_alphanumeric` reports it.
pub uninterp spec fn alphanumeric(c: char) -> bool;

/// Whether the character is in one of Unicode's number categories, as
/// `char::is_numeric` reports it.
pub uninterp spec fn numeric(c: char) -> bool;

/// Relies on char::is_alphanumeric: true exactly for characters in a Unicode
/// letter or number category; the result depends on the character alone, and
/// every ASCII digit lies in a number category.
#[verifier::external_body]
fn char_is_alphanumeric(c: char) -> (r: bool)
    ensures
        r == alphanumeric(c),
        digit(c) ==> r,
{
    c.is_alphanumeric()
}

/// Relies on char::is_numeric: true exactly for characters in a Unicode
/// number category; the result depends on the character alone.
#[verifier::external_body]
fn char_is_numeric(c: char) -> (r: bool)
    ensures
        r == numeric(c),
{
    c.is_numeric()
}

/// A character that may start a numeral: a digit or a decimal point.
pub open spec fn number_start(c: char) -> bool {
    digit(c) || c == '.'
}

/// The letter class: the characters a maximal identifier/numeral run is made
/// of. Digits are alphanumeric, so naming them separately adds nothing; it
/// only keeps the definition independent of facts about `alphanumeric`.
pub open spec fn letter_class(c: char) -> bool {
    digit(c) || alphanumeric(c) || c == '_' || c == '.'
}

fn is_number(ch: char) -> (r: bool)
    ensures
        r == number_start(ch),
{
    let u = ch as u32;
    (48 <= u && u <= 57) || ch == '.'
}

fn is_letter(ch: char) -> (r: bool)
    ensures
        r == letter_class(ch),
{
    char_is_alphanumeric(ch) || ch == '_' || ch == '.'
}

// ---------------------------------------------------------------------------
// The token model
// ---------------------------------------------------------------------------

/// A primitive type keyword of the language.
#[derive(Debug, PartialEq, Eq, Structural, Clone, Copy)]
pub enum Type {
    F32,
    F64,
    I8,
    I16,
    I32,
    I64,
    I128,
    U8,
    U16,
    U32,
    U64,
    U128,
    BOOL,
    CHAR,
}

/// The smallest classified unit of source text. An immutable tagged value.
///
/// A floating-point numeral is carried as its source text: the front end
/// classifies numerals but leaves decoding a float value to its caller,
/// so no statement here depends on floating-point arithmetic.
#[derive(Debug, PartialEq, Clone)]
pub enum Token {
    ILLEGAL,
    EOF,
    /// A numeral that cannot be decoded: a float-shaped run that is not a
    /// well-formed float numeral, or an integer run that does not fit in
    /// `u64`. This is the fatal tier of the error design, surfaced as a
    /// distinct token instead of aborting the process.
    FATAL(String),
    // Identifiers
    IDENT(String),
    // Primitives
    TYPE(Type),
    // Literals
    BOOL(bool),
    FLT(String),
    INT(u64),
    // Operators
    ASSIGN,
    ADD,
    SUBTRACT,
    MULTIPLY,
    DIVIDE,
    MODULO,
    RAISE,
    NOT,
    LTHAN,
    GTHAN,
    EQUAL,
    UNEQUAL,
    // Delimiters
    COMMA,
    SEMI,
    // Blocks
    LPAREN,
    RPAREN,
    LBRACE,
    RBRACE,
    LBRACK,
    RBRACK,
    // Keywords
    FUNCTION,
    LET,
    WHILE,
    IF,
    RETURN,
}

/// The mathematical shadow of `Token`: the same tags, with text carried as a
/// sequence of characters. Contracts speak of tokens through this type.
pub ghost enum TokenV {
    Illegal,
    Eof,
    Fatal(Seq<char>),
    Ident(Seq<char>),
    Type(Type),
    Bool(bool),
    Flt(Seq<char>),
    Int(u64),
    Assign,
    Add,
    Subtract,
    Multiply,
    Divide,
    Modulo,
    Raise,
    Not,
    Lthan,
    Gthan,
    Equal,
    Unequal,
    Comma,
    Semi,
    Lparen,
    Rparen,
    Lbrace,
    Rbrace,
    Lbrack,
    Rbrack,
    Function,
    Let,
    While,
    If,
    Return,
}

impl View for Token {
    type V = TokenV;

    open spec fn view(&self) -> TokenV {
        match self {
            Token::ILLEGAL => TokenV::Illegal,
            Token::EOF => TokenV::Eof,
            Token::FATAL(s) => TokenV::Fatal(s@),
            Token::IDENT(s) => TokenV::Ident(s@),
            Token::TYPE(t) => TokenV::Type(*t),
            Token::BOOL(b) => TokenV::Bool(*b),
            Token::FLT(s) => TokenV::Flt(s@),
            Token::INT(n) => TokenV::Int(*n),
            Token::ASSIGN => TokenV::Assign,
            Token::ADD => TokenV::Add,
            Token::SUBTRACT => TokenV::Subtract,
            Token::MULTIPLY => TokenV::Multiply,
            Token::DIVIDE => TokenV::Divide,
            Token::MODULO => TokenV::Modulo,
            Token::RAISE => TokenV::Raise,
            Token::NOT => TokenV::Not,
            Token::LTHAN => TokenV::Lthan,
            Token::GTHAN => TokenV::Gthan,
            Token::EQUAL => TokenV::Equal,
            Token::UNEQUAL => TokenV::Unequal,
            Token::COMMA => TokenV::Comma,
            Token::SEMI => TokenV::Semi,
            Token::LPAREN => TokenV::Lparen,
            Token::RPAREN => TokenV::Rparen,
            Token::LBRACE => TokenV::Lbrace,
            Token::RBRACE => TokenV::Rbrace,
            Token::LBRACK => TokenV::Lbrack,
            Token::RBRACK => TokenV::Rbrack,
            Token::FUNCTION => TokenV::Function,
            Token::LET => TokenV::Let,
            Token::WHILE => TokenV::While,
            Token::IF => TokenV::If,
            Token::RETURN => TokenV::Return,
        }
    }
}

// ---------------------------------------------------------------------------
// Rendering tokens back to text
// ---------------------------------------------------------------------------

/// The character of a single decimal digit value.
pub open spec fn digit_char(d: int) -> char {
    (48 + d) as char
}

/// The decimal rendering of a non-negative number, most significant digit
/// first.
pub open spec fn dec_str(n: int) -> Seq<char>
    decreases n,
    when n >= 0
{
    if n < 10 {
        seq![digit_char(n)]
    } else {
        dec_str(n / 10).push(digit_char(n % 10))
    }
}

/// The source-text form of a type keyword.
pub open spec fn type_literal(t: Type) -> Seq<char> {
    match t {
        Type::F32 => "f32"@,
        Type::F64 => "f64"@,
        Type::I8 => "i8"@,
        Type::I16 => "i16"@,
        Type::I32 => "i32"@,
        Type::I64 => "i64"@,
        Type::I128 => "i128"@,
        Type::U8 => "u8"@,
        Type::U16 => "u16"@,
        Type::U32 => "u32"@,
        Type::U64 => "u64"@,
        Type::U128 => "u128"@,
        Type::BOOL => "bool"@,
        Type::CHAR => "char"@,
    }
}

/// The diagnostic label of a type keyword.
pub open spec fn type_label(t: Type) -> Seq<char> {
    match t {
        Type::F32 => "F32"@,
        Type::F64 => "F64"@,
        Type::I8 => "I8"@,
        Type::I16 => "I16"@,
        Type::I32 => "I32"@,
        Type::I64 => "I64"@,
        Type::I128 => "I128"@,
        Type::U8 => "U8"@,
        Type::U16 => "U16"@,
        Type::U32 => "U32"@,
        Type::U64 => "U64"@,
        Type::U128 => "U128"@,
        Type::BOOL => "BOOL"@,
        Type::CHAR => "CHAR"@,
    }
}

/// The source-text form of a token: what the source text would print.
pub open spec fn literal_view(t: TokenV) -> Seq<char> {
    match t {
        TokenV::Illegal => "ILLEGAL"@,
        TokenV::Eof => "EOF"@,
        TokenV::Fatal(s) => s,
        TokenV::Ident(s) => s,
        TokenV::Type(ty) => type_literal(ty),
        TokenV::Bool(b) => if b {
            "true"@
        } else {
            "false"@
        },
        TokenV::Flt(s) => s,
        TokenV::Int(n) => dec_str(n as int),
        TokenV::Assign => "="@,
        TokenV::Add => "+"@,
        TokenV::Subtract => "-"@,
        TokenV::Multiply => "*"@,
        TokenV::Divide => "/"@,
        TokenV::Modulo => "%"@,
        TokenV::Raise => "^"@,
        TokenV::Not => "!"@,
        TokenV::Lthan => "<"@,
        TokenV::Gthan => ">"@,
        TokenV::Equal => "=="@,
        TokenV::Unequal => "!="@,
        TokenV::Comma => ","@,
        TokenV::Semi => ";"@,
        TokenV::Lparen => "("@,
        TokenV::Rparen => ")"@,
        TokenV::Lbrace => "{"@,
        TokenV::Rbrace => "}"@,
        TokenV::Lbrack => "["@,
        TokenV::Rbrack => "]"@,
        TokenV::Function => "fn"@,
        TokenV::Let => "let"@,
        TokenV::While => "while"@,
        TokenV::If => "if"@,
        TokenV::Return => "return"@,
    }
}

/// The category label of a token, padded for the diagnostic echo.
pub open spec fn type_tag_view(t: TokenV) -> Seq<char> {
    match t {
        TokenV::Illegal => "ILLEGAL\t\t"@,
        TokenV::Eof => "EOF\t\t"@,
        TokenV::Fatal(_) => "FATAL\t\t"@,
        TokenV::Ident(_) => "IDENT\t\t"@,
        TokenV::Type(ty) => type_label(ty),
        TokenV::Bool(_) => "BOOLEAN\t\t"@,
        TokenV::Int(_) => "INTEGER\t\t"@,
        TokenV::Flt(_) => "FLOAT\t\t"@,
        TokenV::Assign => "ASSIGN\t\t"@,
        TokenV::Add => "ADD\t\t"@,
        TokenV::Subtract => "SUBTRACT\t"@,
        TokenV::Multiply => "MULTIPLY\t"@,
        TokenV::Divide => "DIVIDE\t\t"@,
        TokenV::Modulo => "MODULO\t\t"@,
        TokenV::Raise => "RAISE\t\t"@,
        TokenV::Not => "NOT\t\t"@,
        TokenV::Lthan => "LTHAN\t\t"@,
        TokenV::Gthan => "GTHAN\t\t"@,
        TokenV::Equal => "EQUAL\t\t"@,
        TokenV::Unequal => "UNEQUAL\t\t"@,
        TokenV::Comma => "COMMA\t\t"@,
        TokenV::Semi => "SEMI\t\t"@,
        TokenV::Lparen => "LPAREN\t\t"@,
        TokenV::Rparen => "RPAREN\t\t"@,
        TokenV::Lbrace => "LBRACE\t\t"@,
        TokenV::Rbrace => "RBRACE\t\t"@,
        TokenV::Lbrack => "LBRACK\t\t"@,
        TokenV::Rbrack => "RBRACK\t\t"@,
        TokenV::Function => "FUNCTION\t"@,
        TokenV::Let => "LET\t\t"@,
        TokenV::While => "WHILE\t\t"@,
        TokenV::If => "IF\t\t"@,
        TokenV::Return => "RETURN\t\t"@,
    }
}

impl Type {
    /// The diagnostic label of this type keyword, as plain text.
    pub fn label(&self) -> (r: String)
        ensures
            r@ == type_label(*self),
    {
        match self {
            Type::F32 => "F32".to_owned(),
            Type::F64 => "F64".to_owned(),
            Type::I8 => "I8".to_owned(),
            Type::I16 => "I16".to_owned(),
            Type::I32 => "I32".to_owned(),
            Type::I64 => "I64".to_owned(),
            Type::I128 => "I128".to_owned(),
            Type::U8 => "U8".to_owned(),
            Type::U16 => "U16".to_owned(),
            Type::U32 => "U32".to_owned(),
            Type::U64 => "U64".to_owned(),
            Type::U128 => "U128".to_owned(),
            Type::BOOL => "BOOL".to_owned(),
            Type::CHAR => "CHAR".to_owned(),
        }
    }
}

/// Appends the decimal digits of `n` to `out`, most significant first.
fn push_dec(n: u64, out: &mut Vec<char>)
    ensures
        final(out)@ == old(out)@ + dec_str(n as int),
    decreases n,
{
    if n >= 10 {
        push_dec(n / 10, out);
    }
    let d = (n % 10) as u8;
    let c = match d {
        0 => '0',
        1 => '1',
        2 => '2',
        3 => '3',
        4 => '4',
        5 => '5',
        6 => '6',
        7 => '7',
        8 => '8',
        _ => '9',
    };
    out.push(c);
    proof {
        assert(out@ =~= old(out)@ + dec_str(n as int));
    }
}

/// The decimal rendering of an unsigned integer.
fn u64_to_string(n: u64) -> (s: String)
    ensures
        s@ == dec_str(n as int),
{
    let mut digits: Vec<char> = Vec::new();
    push_dec(n, &mut digits);
    proof {
        assert(digits@ =~= dec_str(n as int));
    }
    string_from_chars(&digits)
}

impl Token {
    /// A copy that equals this token.
    pub fn dup(&self) -> (t: Token)
        ensures
            t == *self,
    {
        match self {
            Token::ILLEGAL => Token::ILLEGAL,
            Token::EOF => Token::EOF,
            Token::FATAL(s) => Token::FATAL(s.clone()),
            Token::IDENT(s) => Token::IDENT(s.clone()),
            Token::TYPE(t) => Token::TYPE(*t),
            Token::BOOL(b) => Token::BOOL(*b),
            Token::FLT(s) => Token::FLT(s.clone()),
            Token::INT(n) => Token::INT(*n),
            Token::ASSIGN => Token::ASSIGN,
            Token::ADD => Token::ADD,
            Token::SUBTRACT => Token::SUBTRACT,
            Token::MULTIPLY => Token::MULTIPLY,
            Token::DIVIDE => Token::DIVIDE,
            Token::MODULO => Token::MODULO,
            Token::RAISE => Token::RAISE,
            Token::NOT => Token::NOT,
            Token::LTHAN => Token::LTHAN,
            Token::GTHAN => Token::GTHAN,
            Token::EQUAL => Token::EQUAL,
            Token::UNEQUAL => Token::UNEQUAL,
            Token::COMMA => Token::COMMA,
            Token::SEMI => Token::SEMI,
            Token::LPAREN => Token::LPAREN,
            Token::RPAREN => Token::RPAREN,
            Token::LBRACE => Token::LBRACE,
            Token::RBRACE => Token::RBRACE,
            Token::LBRACK => Token::LBRACK,
            Token::RBRACK => Token::RBRACK,
            Token::FUNCTION => Token::FUNCTION,
            Token::LET => Token::LET,
            Token::WHILE => Token::WHILE,
            Token::IF => Token::IF,
            Token::RETURN => Token::RETURN,
        }
    }

    /// The literal representation of the token: the source-text form,
    /// returning the inner value of primitives.
    pub fn literal(&self) -> (r: String)
        ensures
            r@ == literal_view(self@),
    {
        match self {
            Token::ILLEGAL => "ILLEGAL".to_owned(),
            Token::EOF => "EOF".to_owned(),
            Token::FATAL(s) => s.clone(),
            Token::IDENT(s) => s.clone(),
            Token::TYPE(t) => match t {
                Type::F32 => "f32".to_owned(),
                Type::F64 => "f64".to_owned(),
                Type::I8 => "i8".to_owned(),
                Type::I16 => "i16".to_owned(),
                Type::I32 => "i32".to_owned(),
                Type::I64 => "i64".to_owned(),
                Type::I128 => "i128".to_owned(),
                Type::U8 => "u8".to_owned(),
                Type::U16 => "u16".to_owned(),
                Type::U32 => "u32".to_owned(),
                Type::U64 => "u64".to_owned(),
                Type::U128 => "u128".to_owned(),
                Type::BOOL => "bool".to_owned(),
                Type::CHAR => "char".to_owned(),
            },
            Token::BOOL(b) => if *b {
                "true".to_owned()
            } else {
                "false".to_owned()
            },
            Token::FLT(s) => s.clone(),
            Token::INT(n) => u64_to_string(*n),
            Token::ASSIGN => "=".to_owned(),
            Token::ADD => "+".to_owned(),
            Token::SUBTRACT => "-".to_owned(),
            Token::MULTIPLY => "*".to_owned(),
            Token::DIVIDE => "/".to_owned(),
            Token::MODULO => "%".to_owned(),
            Token::RAISE => "^".to_owned(),
            Token::NOT => "!".to_owned(),
            Token::LTHAN => "<".to_owned(),
            Token::GTHAN => ">".to_owned(),
            Token::EQUAL => "==".to_owned(),
            Token::UNEQUAL => "!=".to_owned(),
            Token::COMMA => ",".to_owned(),
            Token::SEMI => ";".to_owned(),
            Token::LPAREN => "(".to_owned(),
            Token::RPAREN => ")".to_owned(),
            Token::LBRACE => "{".to_owned(),
            Token::RBRACE => "}".to_owned(),
            Token::LBRACK => "[".to_owned(),
            Token::RBRACK => "]".to_owned(),
            Token::FUNCTION => "fn".to_owned(),
            Token::LET => "let".to_owned(),
            Token::WHILE => "while".to_owned(),
            Token::IF => "if".to_owned(),
            Token::RETURN => "return".to_owned(),
        }
    }

    /// The human-readable category label of the token, for the diagnostic
    /// echo.
    pub fn get_type(&self) -> (r: String)
        ensures
            r@ == type_tag_view(self@),
    {
        match self {
            Token::ILLEGAL => "ILLEGAL\t\t".to_owned(),
            Token::EOF => "EOF\t\t".to_owned(),
            Token::FATAL(_) => "FATAL\t\t".to_owned(),
            Token::IDENT(_) => "IDENT\t\t".to_owned(),
            Token::TYPE(t) => t.label(),
            Token::BOOL(_) => "BOOLEAN\t\t".to_owned(),
            Token::INT(_) => "INTEGER\t\t".to_owned(),
            Token::FLT(_) => "FLOAT\t\t".to_owned(),
            Token::ASSIGN => "ASSIGN\t\t".to_owned(),
            Token::ADD => "ADD\t\t".to_owned(),
            Token::SUBTRACT => "SUBTRACT\t".to_owned(),
            Token::MULTIPLY => "MULTIPLY\t".to_owned(),
            Token::DIVIDE => "DIVIDE\t\t".to_owned(),
            Token::MODULO => "MODULO\t\t".to_owned(),
            Token::RAISE => "RAISE\t\t".to_owned(),
            Token::NOT => "NOT\t\t".to_owned(),
            Token::LTHAN => "LTHAN\t\t".to_owned(),
            Token::GTHAN => "GTHAN\t\t".to_owned(),
            Token::EQUAL => "EQUAL\t\t".to_owned(),
            Token::UNEQUAL => "UNEQUAL\t\t".to_owned(),
            Token::COMMA => "COMMA\t\t".to_owned(),
            Token::SEMI => "SEMI\t\t".to_owned(),
            Token::LPAREN => "LPAREN\t\t".to_owned(),
            Token::RPAREN => "RPAREN\t\t".to_owned(),
            Token::LBRACE => "LBRACE\t\t".to_owned(),
            Token::RBRACE => "RBRACE\t\t".to_owned(),
            Token::LBRACK => "LBRACK\t\t".to_owned(),
            Token::RBRACK => "RBRACK\t\t".to_owned(),
            Token::FUNCTION => "FUNCTION\t".to_owned(),
            Token::LET => "LET\t\t".to_owned(),
            Token::WHILE => "WHILE\t\t".to_owned(),
            Token::IF => "IF\t\t".to_owned(),
            Token::RETURN => "RETURN\t\t".to_owned(),
        }
    }
}

// ---------------------------------------------------------------------------
// Classifying a maximal letter-class run
// ---------------------------------------------------------------------------

pub open spec fn all_digits(s: Seq<char>) -> bool {
    forall|i: int| 0 <= i < s.len() ==> digit(s[i])
}

pub open spec fn all_numeric(s: Seq<char>) -> bool {
    forall|i: int| 0 <= i < s.len() ==> numeric(s[i])
}

pub open spec fn all_alphanumeric(s: Seq<char>) -> bool {
    forall|i: int| 0 <= i < s.len() ==> alphanumeric(s[i])
}

/// The value of a run of decimal digits, most significant first.
pub open spec fn dec_val(s: Seq<char>) -> int
    decreases s.len(),
{
    if s.len() == 0 {
        0
    } else {
        dec_val(s.drop_last()) * 10 + (s.last() as u32 - 48)
    }
}

pub open spec fn exp_marker(c: char) -> bool {
    c == 'e' || c == 'E'
}

/// Witnesses that `s` is a well-formed float numeral: digits, one decimal
/// point at `d` with at least one digit beside it, and an optional exponent
/// part starting at `e` (`e == s.len()` when there is none).
pub open spec fn float_shape(s: Seq<char>, d: int, e: int) -> bool {
    &&& 0 <= d < s.len()
    &&& d < e <= s.len()
    &&& s[d] == '.'
    &&& all_digits(s.subrange(0, d))
    &&& all_digits(s.subrange(d + 1, e))
    &&& (d > 0 || e > d + 1)
    &&& (e == s.len() || (exp_marker(s[e]) && e + 1 < s.len() && all_digits(
        s.subrange(e + 1, s.len() as int),
    )))
}

/// A well-formed float numeral: `Count? '.' Count?` with at least one digit,
/// then optionally `('e' | 'E') Count`. On runs of letter-class characters
/// this is exactly the float grammar the language accepts; a sign cannot
/// occur inside a run.
pub open spec fn float_numeral(s: Seq<char>) -> bool {
    exists|d: int, e: int| float_shape(s, d, e)
}

/// How a run starting with a digit or a decimal point is classified: a float
/// numeral if it contains a point, an unsigned integer if it is all digits
/// and fits in `u64`, an identifier if it is alphanumeric but not purely
/// numeric. A numeral that cannot be decoded is the fatal tier.
pub open spec fn classify_number(s: Seq<char>) -> TokenV {
    if s.contains('.') {
        if float_numeral(s) {
            TokenV::Flt(s)
        } else {
            TokenV::Fatal(s)
        }
    } else if all_numeric(s) {
        if all_digits(s) && dec_val(s) <= u64::MAX {
            TokenV::Int(dec_val(s) as u64)
        } else {
            TokenV::Fatal(s)
        }
    } else if all_alphanumeric(s) {
        TokenV::Ident(s)
    } else {
        TokenV::Illegal
    }
}

/// How a run starting with a letter is resolved against the keyword table;
/// anything unmatched is an identifier.
pub open spec fn classify_word(s: Seq<char>) -> TokenV {
    if s == "fn"@ {
        TokenV::Function
    } else if s == "let"@ {
        TokenV::Let
    } else if s == "while"@ {
        TokenV::While
    } else if s == "true"@ {
        TokenV::Bool(true)
    } else if s == "false"@ {
        TokenV::Bool(false)
    } else if s == "if"@ {
        TokenV::If
    } else if s == "return"@ {
        TokenV::Return
    } else if s == "f32"@ || s == "single"@ {
        TokenV::Type(Type::F32)
    } else if s == "f64"@ || s == "double"@ {
        TokenV::Type(Type::F64)
    } else if s == "i8"@ {
        TokenV::Type(Type::I8)
    } else if s == "i16"@ {
        TokenV::Type(Type::I16)
    } else if s == "i32"@ {
        TokenV::Type(Type::I32)
    } else if s == "i64"@ {
        TokenV::Type(Type::I64)
    } else if s == "i128"@ {
        TokenV::Type(Type::I128)
    } else if s == "u8"@ || s == "byte"@ {
        TokenV::Type(Type::U8)
    } else if s == "u16"@ {
        TokenV::Type(Type::U16)
    } else if s == "u32"@ {
        TokenV::Type(Type::U32)
    } else if s == "u64"@ {
        TokenV::Type(Type::U64)
    } else if s == "u128"@ {
        TokenV::Type(Type::U128)
    } else if s == "bool"@ || s == "u1"@ || s == "bit"@ {
        TokenV::Type(Type::BOOL)
    } else if s == "char"@ {
        TokenV::Type(Type::CHAR)
    } else {
        TokenV::Ident(s)
    }
}

// ---------------------------------------------------------------------------
// Scanning positions, at the specification level
// ---------------------------------------------------------------------------

/// The first offset at or after `pos` holding a non-whitespace character,
/// capped at the end of the input.
pub open spec fn skip_ws_pos(src: Seq<char>, pos: nat) -> nat
    decreases src.len() - pos,
    when pos <= src.len()
{
    if pos == src.len() {
        pos
    } else if ws(src[pos as int]) {
        skip_ws_pos(src, (pos + 1) as nat)
    } else {
        pos
    }
}

/// The end of the maximal run of letter-class characters starting at `pos`:
/// the first offset at or after `pos` holding a character outside the class,
/// capped at the end of the input.
pub open spec fn run_end(src: Seq<char>, pos: nat) -> nat
    decreases src.len() - pos,
    when pos <= src.len()
{
    if pos == src.len() {
        pos
    } else if letter_class(src[pos as int]) {
        run_end(src, (pos + 1) as nat)
    } else {
        pos
    }
}

pub proof fn lemma_skip_ws_pos(src: Seq<char>, pos: nat)
    requires
        pos <= src.len(),
    ensures
        pos <= skip_ws_pos(src, pos) <= src.len(),
        skip_ws_pos(src, pos) < src.len() ==> !ws(src[skip_ws_pos(src, pos) as int]),
    decreases src.len() - pos,
{
    if pos < src.len() && ws(src[pos as int]) {
        lemma_skip_ws_pos(src, (pos + 1) as nat);
    }
}

pub proof fn lemma_run_end(src: Seq<char>, pos: nat)
    requires
        pos <= src.len(),
    ensures
        pos <= run_end(src, pos) <= src.len(),
        run_end(src, pos) < src.len() ==> !letter_class(src[run_end(src, pos) as int]),
        pos < src.len() && letter_class(src[pos as int]) ==> run_end(src, pos) > pos,
    decreases src.len() - pos,
{
    if pos < src.len() && letter_class(src[pos as int]) {
        lemma_run_end(src, (pos + 1) as nat);
    }
}

// ---------------------------------------------------------------------------
// The next token, at the specification level
// ---------------------------------------------------------------------------

/// The next token of `src` when scanning starts at offset `pos`, paired with
/// the scan offset after it. This is the whole tokenizer, as a function of
/// the input text and the offset alone.
pub open spec fn spec_token(src: Seq<char>, pos: nat) -> (TokenV, nat) {
    let p = skip_ws_pos(src, pos);
    if p == src.len() {
        (TokenV::Eof, p)
    } else {
        let c = src[p as int];
        if c == '=' {
            if p + 1 < src.len() && src[p as int + 1] == '=' {
                (TokenV::Equal, (p + 2) as nat)
            } else {
                (TokenV::Assign, (p + 1) as nat)
            }
        } else if c == '+' {
            (TokenV::Add, (p + 1) as nat)
        } else if c == '-' {
            (TokenV::Subtract, (p + 1) as nat)
        } else if c == '*' {
            (TokenV::Multiply, (p + 1) as nat)
        } else if c == '/' {
            (TokenV::Divide, (p + 1) as nat)
        } else if c == '%' {
            (TokenV::Modulo, (p + 1) as nat)
        } else if c == '^' {
            (TokenV::Raise, (p + 1) as nat)
        } else if c == '<' {
            (TokenV::Lthan, (p + 1) as nat)
        } else if c == '>' {
            (TokenV::Gthan, (p + 1) as nat)
        } else if c == '!' {
            if p + 1 < src.len() && src[p as int + 1] == '=' {
                (TokenV::Unequal, (p + 2) as nat)
            } else {
                (TokenV::Not, (p + 1) as nat)
            }
        } else if c == '(' {
            (TokenV::Lparen, (p + 1) as nat)
        } else if c == ')' {
            (TokenV::Rparen, (p + 1) as nat)
        } else if c == '{' {
            (TokenV::Lbrace, (p + 1) as nat)
        } else if c == '}' {
            (TokenV::Rbrace, (p + 1) as nat)
        } else if c == '[' {
            (TokenV::Lbrack, (p + 1) as nat)
        } else if c == ']' {
            (TokenV::Rbrack, (p + 1) as nat)
        } else if c == ',' {
            (TokenV::Comma, (p + 1) as nat)
        } else if c == ';' {
            (TokenV::Semi, (p + 1) as nat)
        } else if number_start(c) {
            let e = run_end(src, p);
            (classify_number(src.subrange(p as int, e as int)), e)
        } else if letter_class(c) {
            let e = run_end(src, p);
            (classify_word(src.subrange(p as int, e as int)), e)
        } else {
            (TokenV::Illegal, (p + 1) as nat)
        }
    }
}

/// Scanning one token never runs past the end of the input; it stands still
/// exactly at end of input, where the token is `Eof`.
pub proof fn lemma_spec_token(src: Seq<char>, pos: nat)
    requires
        pos <= src.len(),
    ensures
        spec_token(src, pos).1 <= src.len(),
        spec_token(src, pos).0 is Eof ==> spec_token(src, pos).1 == src.len(),
        !(spec_token(src, pos).0 is Eof) ==> spec_token(src, pos).1 > pos,
{
    lemma_skip_ws_pos(src, pos);
    let p = skip_ws_pos(src, pos);
    if p < src.len() {
        lemma_run_end(src, p);
    }
}

/// Once the input is spent the tokenizer stands still: scanning at the end
/// of the input yields `Eof` there again, so repeated calls keep returning
/// `Eof` forever.
pub proof fn lemma_eof_absorbing(src: Seq<char>)
    ensures
        spec_token(src, src.len()) == (TokenV::Eof, src.len()),
{
}

/// Tokenizing has no hidden state: two tokenizers over the same input text
/// at the same scan offset yield the same token and reach the same offset,
/// so re-tokenizing the same input from a freshly constructed tokenizer
/// yields the identical token sequence.
pub proof fn lemma_tokenizing_deterministic(a: Lexer, b: Lexer)
    requires
        a.src() == b.src(),
        a.pos() == b.pos(),
    ensures
        spec_token(a.src(), a.pos()) == spec_token(b.src(), b.pos()),
{
}

/// On input consisting solely of whitespace, the first token produced, from
/// any starting offset, is `Eof`.
pub proof fn lemma_whitespace_gives_eof(src: Seq<char>, pos: nat)
    requires
        pos <= src.len(),
        forall|i: int| 0 <= i < src.len() ==> ws(src[i]),
    ensures
        spec_token(src, pos).0 is Eof,
    decreases src.len() - pos,
{
    if pos < src.len() {
        lemma_whitespace_gives_eof(src, (pos + 1) as nat);
    }
}

// ---------------------------------------------------------------------------
// The tokenizer state
// ---------------------------------------------------------------------------

/// The tokenizer. It owns the decoded input text, a current scan offset, the
/// look-ahead offset, and the currently decoded character, absent at end of
/// input.
pub struct Lexer {
    input: Vec<char>,
    position: usize,
    next_position: usize,
    ch: Option<char>,
}

impl Lexer {
    /// The input text being scanned.
    pub closed spec fn src(&self) -> Seq<char> {
        self.input@
    }

    /// The current scan offset; the input length once the input is spent.
    pub closed spec fn pos(&self) -> nat {
        self.position as nat
    }

    /// The state invariant: the look-ahead offset sits one past the scan
    /// offset until the input is spent, and the decoded character reflects
    /// the character at the scan offset, absent past end of input.
    pub closed spec fn wf(&self) -> bool {
        &&& self.position <= self.input@.len()
        &&& self.next_position == if self.position < self.input@.len() {
            self.position + 1
        } else {
            self.input@.len() as int
        }
        &&& self.ch == if self.position < self.input@.len() {
            Some(self.input@[self.position as int])
        } else {
            None::<char>
        }
    }

    /// In a well-formed tokenizer the scan offset never runs past the input.
    pub proof fn lemma_wf_bounds(&self)
        requires
            self.wf(),
        ensures
            self.pos() <= self.src().len(),
    {
    }

    /// Decodes the source text and positions the scan at its first character.
    pub fn new(input: &str) -> (lexer: Lexer)
        ensures
            lexer.wf(),
            lexer.src() == input@,
            lexer.pos() == 0,
    {
        let mut lexer = Lexer { input: decode_chars(input), position: 0, next_position: 0, ch: None };
        lexer.read_char();
        lexer
    }

    /// Advances by one character: the look-ahead offset becomes current and
    /// the decoded character follows it. Both offsets stop at the input
    /// length once the input is spent.
    fn read_char(&mut self)
        requires
            old(self).next_position <= old(self).input@.len(),
        ensures
            final(self).input@ == old(self).input@,
            old(self).next_position < old(self).input@.len() ==> {
                &&& final(self).position == old(self).next_position
                &&& final(self).next_position == old(self).next_position + 1
                &&& final(self).ch == Some(old(self).input@[old(self).next_position as int])
            },
            old(self).next_position == old(self).input@.len() ==> {
                &&& final(self).position == old(self).input@.len()
                &&& final(self).next_position == old(self).input@.len()
                &&& final(self).ch is None
            },
    {
        if self.next_position >= self.input.len() {
            self.ch = None;
            self.position = self.input.len();
            self.next_position = self.input.len();
        } else {
            self.ch = Some(self.input[self.next_position]);
            self.position = self.next_position;
            self.next_position = self.next_position + 1;
        }
    }

    /// The character at the look-ahead offset, absent past end of input.
    fn peek_char(&self) -> (r: Option<char>)
        ensures
            r == if self.next_position < self.input@.len() {
                Some(self.input@[self.next_position as int])
            } else {
                None::<char>
            },
    {
        if self.next_position >= self.input.len() {
            None
        } else {
            Some(self.input[self.next_position])
        }
    }

    /// Skips a maximal run of whitespace.
    fn skip_whitespace(&mut self)
        requires
            old(self).wf(),
        ensures
            final(self).wf(),
            final(self).input@ == old(self).input@,
            final(self).position == skip_ws_pos(old(self).input@, old(self).position as nat),
    {
        loop
            invariant
                self.wf(),
                self.input@ == old(self).input@,
                skip_ws_pos(self.input@, self.position as nat) == skip_ws_pos(
                    old(self).input@,
                    old(self).position as nat,
                ),
            ensures
                self.wf(),
                self.input@ == old(self).input@,
                self.position == skip_ws_pos(old(self).input@, old(self).position as nat),
            decreases self.input@.len() - self.position,
        {
            match self.ch {
                Some(c) => {
                    if c == ' ' || c == '\t' || c == '\n' || c == '\r' {
                        self.read_char();
                    } else {
                        break ;
                    }
                },
                None => {
                    break ;
                },
            }
        }
    }

    /// Consumes zero or more characters and returns exactly one token,
    /// advancing the scan monotonically; once the input is spent every
    /// further call keeps returning `EOF`. The token returned and the offset
    /// reached are a function of the input text and the starting offset
    /// alone.
    pub fn next_token(&mut self) -> (token: Token)
        requires
            old(self).wf(),
        ensures
            final(self).wf(),
            final(self).src() == old(self).src(),
            token@ == spec_token(old(self).src(), old(self).pos()).0,
            final(self).pos() == spec_token(old(self).src(), old(self).pos()).1,
    {
        self.skip_whitespace();
        proof {
            lemma_skip_ws_pos(old(self).input@, old(self).position as nat);
        }
        let token = match self.ch {
            Some('=') => match self.peek_char() {
                Some('=') => {
                    self.read_char();
                    Token::EQUAL
                },
                _ => Token::ASSIGN,
            },
            Some('+') => Token::ADD,
            Some('-') => Token::SUBTRACT,
            Some('*') => Token::MULTIPLY,
            Some('/') => Token::DIVIDE,
            Some('%') => Token::MODULO,
            Some('^') => Token::RAISE,
            Some('<') => Token::LTHAN,
            Some('>') => Token::GTHAN,
            Some('!') => match self.peek_char() {
                Some('=') => {
                    self.read_char();
                    Token::UNEQUAL
                },
                _ => Token::NOT,
            },
            Some('(') => Token::LPAREN,
            Some(')') => Token::RPAREN,
            Some('{') => Token::LBRACE,
            Some('}') => Token::RBRACE,
            Some('[') => Token::LBRACK,
            Some(']') => Token::RBRACK,
            Some(',') => Token::COMMA,
            Some(';') => Token::SEMI,
            Some(curr_ch) => {
                if is_number(curr_ch) {
                    let run = self.read_next_alphanumeric();
                    check_for_numbers(&run)
                } else if is_letter(curr_ch) {
                    let run = self.read_next_alphanumeric();
                    check_for_keywords(&run)
                } else {
                    Token::ILLEGAL
                }
            },
            None => Token::EOF,
        };
        self.read_char();
        token
    }

    /// Reads the maximal run of letter-class characters starting at the scan
    /// offset, then backs up one character so that the unconditional advance
    /// at the end of `next_token` lands on the character that stopped the
    /// run.
    fn read_next_alphanumeric(&mut self) -> (run: Vec<char>)
        requires
            old(self).wf(),
            old(self).position < old(self).input@.len(),
            letter_class(old(self).input@[old(self).position as int]),
        ensures
            final(self).input@ == old(self).input@,
            run@ == old(self).input@.subrange(
                old(self).position as int,
                run_end(old(self).input@, old(self).position as nat) as int,
            ),
            final(self).position + 1 == run_end(old(self).input@, old(self).position as nat),
            final(self).next_position == run_end(old(self).input@, old(self).position as nat),
            old(self).position < run_end(old(self).input@, old(self).position as nat)
                <= old(self).input@.len(),
    {
        let ghost src = self.input@;
        let ghost start = self.position as nat;
        proof {
            lemma_run_end(src, start);
        }
        let mut run: Vec<char> = Vec::new();
        loop
            invariant
                self.wf(),
                self.input@ == src,
                start <= self.position as nat <= src.len(),
                run_end(src, self.position as nat) == run_end(src, start),
                run@ == src.subrange(start as int, self.position as int),
            ensures
                self.wf(),
                self.input@ == src,
                self.position as nat == run_end(src, start),
                run@ == src.subrange(start as int, run_end(src, start) as int),
            decreases src.len() - self.position,
        {
            match self.ch {
                Some(c) => {
                    if is_letter(c) {
                        run.push(c);
                        proof {
                            assert(run@ =~= src.subrange(start as int, self.position as int + 1));
                        }
                        self.read_char();
                    } else {
                        break ;
                    }
                },
                None => {
                    break ;
                },
            }
        }
        self.position = self.position - 1;
        self.next_position = self.position + 1;
        run
    }
}

// ---------------------------------------------------------------------------
// Executable classification
// ---------------------------------------------------------------------------

/// Whether the run reads, character for character, as the word `w`.
fn word_eq(v: &Vec<char>, w: &str) -> (b: bool)
    ensures
        b == (v@ == w@),
{
    let n = w.unicode_len();
    if v.len() != n {
        return false;
    }
    let mut i: usize = 0;
    while i < n
        invariant
            i <= n,
            n == w@.len(),
            v@.len() == n,
            forall|j: int| 0 <= j < i ==> v@[j] == w@[j],
        decreases n - i,
    {
        if v[i] != w.get_char(i) {
            return false;
        }
        i = i + 1;
    }
    proof {
        assert(v@ =~= w@);
    }
    true
}

fn contains_dot(v: &Vec<char>) -> (b: bool)
    ensures
        b == v@.contains('.'),
{
    let mut i: usize = 0;
    while i < v.len()
        invariant
            i <= v@.len(),
            forall|j: int| 0 <= j < i ==> v@[j] != '.',
        decreases v@.len() - i,
    {
        if v[i] == '.' {
            return true;
        }
        i = i + 1;
    }
    false
}

fn all_numeric_exec(v: &Vec<char>) -> (b: bool)
    ensures
        b == all_numeric(v@),
{
    let mut i: usize = 0;
    while i < v.len()
        invariant
            i <= v@.len(),
            forall|j: int| 0 <= j < i ==> numeric(v@[j]),
        decreases v@.len() - i,
    {
        if !char_is_numeric(v[i]) {
            return false;
        }
        i = i + 1;
    }
    true
}

fn all_alphanumeric_exec(v: &Vec<char>) -> (b: bool)
    ensures
        b == all_alphanumeric(v@),
{
    let mut i: usize = 0;
    while i < v.len()
        invariant
            i <= v@.len(),
            forall|j: int| 0 <= j < i ==> alphanumeric(v@[j]),
        decreases v@.len() - i,
    {
        if !char_is_alphanumeric(v[i]) {
            return false;
        }
        i = i + 1;
    }
    true
}

/// The end of the run of ASCII digits starting at `from`.
fn scan_digits(v: &Vec<char>, from: usize) -> (r: usize)
    requires
        from <= v@.len(),
    ensures
        from <= r <= v@.len(),
        forall|j: int| from <= j < r ==> digit(v@[j]),
        r < v@.len() ==> !digit(v@[r as int]),
{
    let mut i = from;
    while i < v.len()
        invariant
            from <= i <= v@.len(),
            forall|j: int| from <= j < i ==> digit(v@[j]),
        decreases v@.len() - i,
    {
        let u = v[i] as u32;
        if !(48 <= u && u <= 57) {
            return i;
        }
        i = i + 1;
    }
    i
}

/// Whether the run is a well-formed float numeral.
fn is_float_numeral(v: &Vec<char>) -> (b: bool)
    ensures
        b == float_numeral(v@),
{
    let ghost s = v@;
    let n = v.len();
    let i = scan_digits(v, 0);
    if i == n || v[i] != '.' {
        proof {
            assert forall|d: int, e: int| !float_shape(s, d, e) by {
                if float_shape(s, d, e) {
                    if d < i {
                        assert(all_digits(s.subrange(0, i as int)) ==> digit(s[d]));
                        assert(digit(s[d]));
                    } else if d > i {
                        assert(s.subrange(0, d)[i as int] == s[i as int]);
                        assert(digit(s[i as int]));
                    }
                }
            }
        }
        return false;
    }
    let d = i;
    let j = scan_digits(v, d + 1);
    let has_digit = d > 0 || j > d + 1;
    proof {
        // the decimal point of any witness is forced to `d`
        assert forall|d2: int, e2: int| float_shape(s, d2, e2) implies d2 == d by {
            if d2 < d {
                assert(digit(s[d2]));
            } else if d2 > d {
                assert(s.subrange(0, d2)[d as int] == s[d as int]);
                assert(digit(s[d as int]));
            }
        }
    }
    if j == n {
        proof {
            if has_digit {
                assert(s.subrange(0, d as int) =~= s.subrange(0, d as int));
                assert(float_shape(s, d as int, n as int));
            } else {
                assert forall|d2: int, e2: int| !float_shape(s, d2, e2) by {
                    if float_shape(s, d2, e2) {
                        assert(d2 == d);
                        assert(e2 > d2 + 1);
                        assert(s.subrange(d as int + 1, e2)[0] == s[d as int + 1]);
                    }
                }
            }
        }
        return has_digit;
    }
    // a character stopped the digit run before the end
    let stop = v[j];
    if !(stop == 'e' || stop == 'E') {
        proof {
            assert forall|d2: int, e2: int| !float_shape(s, d2, e2) by {
                if float_shape(s, d2, e2) {
                    assert(d2 == d);
                    if e2 == s.len() {
                        assert(s.subrange(d as int + 1, e2)[j - d - 1] == s[j as int]);
                        assert(digit(s[j as int]));
                    } else if e2 < j {
                        assert(s.subrange(d as int + 1, j as int)[e2 - d - 1] == s[e2]);
                        assert(digit(s[e2]));
                    } else if e2 > j {
                        assert(s.subrange(d as int + 1, e2)[j - d - 1] == s[j as int]);
                        assert(digit(s[j as int]));
                    }
                }
            }
        }
        return false;
    }
    let k = scan_digits(v, j + 1);
    let ok = has_digit && j + 1 < n && k == n;
    proof {
        // the exponent marker of any witness is forced to `j`
        assert forall|d2: int, e2: int| float_shape(s, d2, e2) implies d2 == d && e2 == j by {
            assert(d2 == d);
            if e2 < j {
                assert(s.subrange(d as int + 1, j as int)[e2 - d - 1] == s[e2]);
                assert(digit(s[e2]));
            } else if e2 > j {
                assert(s.subrange(d as int + 1, e2)[j - d - 1] == s[j as int]);
                assert(digit(s[j as int]));
            }
        }
        if ok {
            assert(float_shape(s, d as int, j as int));
        } else {
            assert forall|d2: int, e2: int| !float_shape(s, d2, e2) by {
                if float_shape(s, d2, e2) {
                    assert(d2 == d && e2 == j);
                    if !has_digit {
                        assert(e2 > d2 + 1);
                        assert(s.subrange(d as int + 1, e2)[0] == s[d as int + 1]);
                    } else if k < n {
                        assert(s.subrange(j as int + 1, n as int)[k - j - 1] == s[k as int]);
                        assert(digit(s[k as int]));
                    }
                }
            }
        }
    }
    ok
}

proof fn lemma_dec_val_take_step(s: Seq<char>, i: int)
    requires
        0 <= i < s.len(),
    ensures
        dec_val(s.take(i + 1)) == dec_val(s.take(i)) * 10 + (s[i] as u32 - 48),
{
    assert(s.take(i + 1).drop_last() =~= s.take(i));
    assert(s.take(i + 1).last() == s[i]);
}

proof fn lemma_dec_val_nonneg(s: Seq<char>)
    requires
        all_digits(s),
    ensures
        dec_val(s) >= 0,
    decreases s.len(),
{
    if s.len() > 0 {
        assert(all_digits(s.drop_last()));
        lemma_dec_val_nonneg(s.drop_last());
        assert(digit(s.last()));
    }
}

/// On an all-digit run the value of a prefix never exceeds the value of the
/// whole run.
proof fn lemma_dec_val_prefix(s: Seq<char>, i: int)
    requires
        all_digits(s),
        0 <= i <= s.len(),
    ensures
        dec_val(s.take(i)) <= dec_val(s),
    decreases s.len() - i,
{
    if i < s.len() {
        lemma_dec_val_take_step(s, i);
        assert(all_digits(s.take(i))) by {
            assert(forall|j: int| 0 <= j < i ==> s.take(i)[j] == s[j]);
        }
        lemma_dec_val_nonneg(s.take(i));
        lemma_dec_val_prefix(s, i + 1);
    } else {
        assert(s.take(i) =~= s);
    }
}

/// Decodes an all-digit run as an unsigned 64-bit integer; `None` when the
/// run holds a character that is not an ASCII digit or the value does not
/// fit.
fn decode_u64(v: &Vec<char>) -> (r: Option<u64>)
    ensures
        match r {
            Some(n) => all_digits(v@) && dec_val(v@) == n,
            None => !(all_digits(v@) && dec_val(v@) <= u64::MAX),
        },
{
    let ghost s = v@;
    let n = v.len();
    let mut acc: u64 = 0;
    let mut i: usize = 0;
    let max_div: u64 = u64::MAX / 10;
    while i < n
        invariant
            i <= n,
            n == s.len(),
            v@ == s,
            forall|j: int| 0 <= j < i ==> digit(s[j]),
            acc == dec_val(s.take(i as int)),
            max_div == u64::MAX / 10,
        decreases n - i,
    {
        let u = v[i] as u32;
        if !(48 <= u && u <= 57) {
            return None;
        }
        let d = (u - 48) as u64;
        proof {
            lemma_dec_val_take_step(s, i as int);
        }
        if acc > max_div || (acc == max_div && d > 5) {
            proof {
                assert(acc * 10 + d > u64::MAX);
                if all_digits(s) {
                    lemma_dec_val_prefix(s, i as int + 1);
                }
            }
            return None;
        }
        proof {
            assert(acc * 10 + d <= u64::MAX);
        }
        acc = acc * 10 + d;
        i = i + 1;
    }
    proof {
        assert(s.take(n as int) =~= s);
    }
    Some(acc)
}

/// Classifies a run that starts with a digit or a decimal point.
fn check_for_numbers(run: &Vec<char>) -> (t: Token)
    ensures
        t@ == classify_number(run@),
{
    if contains_dot(run) {
        let text = string_from_chars(run);
        if is_float_numeral(run) {
            Token::FLT(text)
        } else {
            Token::FATAL(text)
        }
    } else if all_numeric_exec(run) {
        match decode_u64(run) {
            Some(value) => Token::INT(value),
            None => Token::FATAL(string_from_chars(run)),
        }
    } else if all_alphanumeric_exec(run) {
        Token::IDENT(string_from_chars(run))
    } else {
        Token::ILLEGAL
    }
}

/// Resolves a run that starts with a letter against the keyword table.
fn check_for_keywords(run: &Vec<char>) -> (t: Token)
    ensures
        t@ == classify_word(run@),
{
    if word_eq(run, "fn") {
        Token::FUNCTION
    } else if word_eq(run, "let") {
        Token::LET
    } else if word_eq(run, "while") {
        Token::WHILE
    } else if word_eq(run, "true") {
        Token::BOOL(true)
    } else if word_eq(run, "false") {
        Token::BOOL(false)
    } else if word_eq(run, "if") {
        Token::IF
    } else if word_eq(run, "return") {
        Token::RETURN
    } else if word_eq(run, "f32") || word_eq(run, "single") {
        Token::TYPE(Type::F32)
    } else if word_eq(run, "f64") || word_eq(run, "double") {
        Token::TYPE(Type::F64)
    } else if word_eq(run, "i8") {
        Token::TYPE(Type::I8)
    } else if word_eq(run, "i16") {
        Token::TYPE(Type::I16)
    } else if word_eq(run, "i32") {
        Token::TYPE(Type::I32)
    } else if word_eq(run, "i64") {
        Token::TYPE(Type::I64)
    } else if word_eq(run, "i128") {
        Token::TYPE(Type::I128)
    } else if word_eq(run, "u8") || word_eq(run, "byte") {
        Token::TYPE(Type::U8)
    } else if word_eq(run, "u16") {
        Token::TYPE(Type::U16)
    } else if word_eq(run, "u32") {
        Token::TYPE(Type::U32)
    } else if word_eq(run, "u64") {
        Token::TYPE(Type::U64)
    } else if word_eq(run, "u128") {
        Token::TYPE(Type::U128)
    } else if word_eq(run, "bool") || word_eq(run, "u1") || word_eq(run, "bit") {
        Token::TYPE(Type::BOOL)
    } else if word_eq(run, "char") {
        Token::TYPE(Type::CHAR)
    } else {
        Token::IDENT(string_from_chars(run))
    }
}

/// Relies on String::push: the string of exactly these characters, in order.
#[verifier::external_body]
fn string_from_chars(v: &Vec<char>) -> (s: String)
    ensures
        s@ == v@,
{
    let mut s = String::new();
    for c in v.iter() {
        s.push(*c);
    }
    s
}

/// Relies on str::chars: the characters of the string, in order.
#[verifier::external_body]
fn decode_chars(s: &str) -> (v: Vec<char>)
    ensures
        v@ == s@,
{
    s.chars().collect()
}

} // verus!
