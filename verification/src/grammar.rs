//! Token kinds, tokens, and the error types of the lexer and parser.

use vstd::prelude::*;
use crate::chars::{is_bin_digit, is_dec_digit, is_hex_digit, is_oct_digit};

verus! {

/// Radix of an integer literal.
#[derive(Clone, Copy, Debug, Hash, PartialEq, Eq, Structural)]
pub enum NumberBase {
    BINARY,
    OCTAL,
    DECIMAL,
    HEX,
}

/// The radix as a number: 2, 8, 10 or 16.
pub open spec fn base_radix(b: NumberBase) -> int {
    match b {
        NumberBase::BINARY => 2,
        NumberBase::OCTAL => 8,
        NumberBase::DECIMAL => 10,
        NumberBase::HEX => 16,
    }
}

/// Whether `c` is a legal digit character for base `b` (underscores are not).
pub open spec fn is_digit_for_base(b: NumberBase, c: char) -> bool {
    match b {
        NumberBase::BINARY => is_bin_digit(c),
        NumberBase::OCTAL => is_oct_digit(c),
        NumberBase::DECIMAL => is_dec_digit(c),
        NumberBase::HEX => is_hex_digit(c),
    }
}

/// Executable digit test for a given base.
pub fn digit_for_base(b: NumberBase, c: char) -> (r: bool)
    ensures
        r == is_digit_for_base(b, c),
{
    match b {
        NumberBase::BINARY => c == '0' || c == '1',
        NumberBase::OCTAL => '0' <= c && c <= '7',
        NumberBase::DECIMAL => '0' <= c && c <= '9',
        NumberBase::HEX => ('0' <= c && c <= '9') || ('a' <= c && c <= 'f') || ('A' <= c && c
            <= 'F'),
    }
}

/// A literal token: an integer with its radix and normalized digit string,
/// or a string payload (reserved, unused by the core).
#[allow(non_camel_case_types)]
#[derive(Debug, Hash, PartialEq, Eq)]
pub enum LiteralKind {
    INT { base: NumberBase, val: String },
    STRING(String),
}

/// Mathematical image of a `LiteralKind`: digit strings become `Seq<char>`.
#[allow(non_camel_case_types)]
pub enum LiteralKindV {
    INT { base: NumberBase, val: Seq<char> },
    STRING(Seq<char>),
}

impl View for LiteralKind {
    type V = LiteralKindV;

    open spec fn view(&self) -> LiteralKindV {
        match self {
            LiteralKind::INT { base, val } => LiteralKindV::INT { base: *base, val: val@ },
            LiteralKind::STRING(s) => LiteralKindV::STRING(s@),
        }
    }
}

/// The reserved words that carry their own token group.
#[allow(non_camel_case_types)]
#[derive(Clone, Copy, Debug, Hash, PartialEq, Eq, Structural)]
pub enum ReservedIDents {
    FUNCTION,
    STRUCT,
    LET,
    VOID,
    I32,
    F32,
}

impl Clone for LiteralKind {
    fn clone(&self) -> (res: Self)
        ensures
            res == *self,
    {
        match self {
            LiteralKind::INT { base, val } => LiteralKind::INT { base: *base, val: val.clone() },
            LiteralKind::STRING(s) => LiteralKind::STRING(s.clone()),
        }
    }
}

/// The closed sum of token kinds.
#[allow(non_camel_case_types)]
#[derive(Debug, Hash, PartialEq, Eq)]
pub enum TokenKind {
    LITERAL(LiteralKind),
    IDENT(String),
    RESERVED(ReservedIDents),
    PLUS,
    MINUS,
    STAR,
    SLASH,
    DECREMENT,
    INCREMENT,
    EQUAL,
    DEQUAL,
    LT,
    MT,
    SEMICOLON,
    COLON,
    LBRACE,
    RBRACE,
    CLBRACE,
    CRBRACE,
    DQUOTE,
    QUOTE,
    AMPERSAND,
    DOT,
    RANGE,
    RETURN,
    PRINT,
    PRINTLN,
    IMMUTABLE,
    ARROW,
    EOF,
}

impl Clone for TokenKind {
    fn clone(&self) -> (res: Self)
        ensures
            res == *self,
    {
        match self {
            TokenKind::LITERAL(l) => TokenKind::LITERAL(l.clone()),
            TokenKind::IDENT(s) => TokenKind::IDENT(s.clone()),
            TokenKind::RESERVED(r) => TokenKind::RESERVED(*r),
            TokenKind::PLUS => TokenKind::PLUS,
            TokenKind::MINUS => TokenKind::MINUS,
            TokenKind::STAR => TokenKind::STAR,
            TokenKind::SLASH => TokenKind::SLASH,
            TokenKind::DECREMENT => TokenKind::DECREMENT,
            TokenKind::INCREMENT => TokenKind::INCREMENT,
            TokenKind::EQUAL => TokenKind::EQUAL,
            TokenKind::DEQUAL => TokenKind::DEQUAL,
            TokenKind::LT => TokenKind::LT,
            TokenKind::MT => TokenKind::MT,
            TokenKind::SEMICOLON => TokenKind::SEMICOLON,
            TokenKind::COLON => TokenKind::COLON,
            TokenKind::LBRACE => TokenKind::LBRACE,
            TokenKind::RBRACE => TokenKind::RBRACE,
            TokenKind::CLBRACE => TokenKind::CLBRACE,
            TokenKind::CRBRACE => TokenKind::CRBRACE,
            TokenKind::DQUOTE => TokenKind::DQUOTE,
            TokenKind::QUOTE => TokenKind::QUOTE,
            TokenKind::AMPERSAND => TokenKind::AMPERSAND,
            TokenKind::DOT => TokenKind::DOT,
            TokenKind::RANGE => TokenKind::RANGE,
            TokenKind::RETURN => TokenKind::RETURN,
            TokenKind::PRINT => TokenKind::PRINT,
            TokenKind::PRINTLN => TokenKind::PRINTLN,
            TokenKind::IMMUTABLE => TokenKind::IMMUTABLE,
            TokenKind::ARROW => TokenKind::ARROW,
            TokenKind::EOF => TokenKind::EOF,
        }
    }
}

/// Mathematical image of a `TokenKind`: strings become `Seq<char>`.
#[allow(non_camel_case_types)]
pub enum TokenKindV {
    LITERAL(LiteralKindV),
    IDENT(Seq<char>),
    RESERVED(ReservedIDents),
    PLUS,
    MINUS,
    STAR,
    SLASH,
    DECREMENT,
    INCREMENT,
    EQUAL,
    DEQUAL,
    LT,
    MT,
    SEMICOLON,
    COLON,
    LBRACE,
    RBRACE,
    CLBRACE,
    CRBRACE,
    DQUOTE,
    QUOTE,
    AMPERSAND,
    DOT,
    RANGE,
    RETURN,
    PRINT,
    PRINTLN,
    IMMUTABLE,
    ARROW,
    EOF,
}

impl View for TokenKind {
    type V = TokenKindV;

    open spec fn view(&self) -> TokenKindV {
        match self {
            TokenKind::LITERAL(l) => TokenKindV::LITERAL(l@),
            TokenKind::IDENT(s) => TokenKindV::IDENT(s@),
            TokenKind::RESERVED(r) => TokenKindV::RESERVED(*r),
            TokenKind::PLUS => TokenKindV::PLUS,
            TokenKind::MINUS => TokenKindV::MINUS,
            TokenKind::STAR => TokenKindV::STAR,
            TokenKind::SLASH => TokenKindV::SLASH,
            TokenKind::DECREMENT => TokenKindV::DECREMENT,
            TokenKind::INCREMENT => TokenKindV::INCREMENT,
            TokenKind::EQUAL => TokenKindV::EQUAL,
            TokenKind::DEQUAL => TokenKindV::DEQUAL,
            TokenKind::LT => TokenKindV::LT,
            TokenKind::MT => TokenKindV::MT,
            TokenKind::SEMICOLON => TokenKindV::SEMICOLON,
            TokenKind::COLON => TokenKindV::COLON,
            TokenKind::LBRACE => TokenKindV::LBRACE,
            TokenKind::RBRACE => TokenKindV::RBRACE,
            TokenKind::CLBRACE => TokenKindV::CLBRACE,
            TokenKind::CRBRACE => TokenKindV::CRBRACE,
            TokenKind::DQUOTE => TokenKindV::DQUOTE,
            TokenKind::QUOTE => TokenKindV::QUOTE,
            TokenKind::AMPERSAND => TokenKindV::AMPERSAND,
            TokenKind::DOT => TokenKindV::DOT,
            TokenKind::RANGE => TokenKindV::RANGE,
            TokenKind::RETURN => TokenKindV::RETURN,
            TokenKind::PRINT => TokenKindV::PRINT,
            TokenKind::PRINTLN => TokenKindV::PRINTLN,
            TokenKind::IMMUTABLE => TokenKindV::IMMUTABLE,
            TokenKind::ARROW => TokenKindV::ARROW,
            TokenKind::EOF => TokenKindV::EOF,
        }
    }
}

/// A token: a kind together with its `(line, column)` source position.
#[derive(Debug)]
pub struct Token {
    pub kind: TokenKind,
    pub pos: (usize, usize),
}

impl Clone for Token {
    fn clone(&self) -> (res: Self)
        ensures
            res == *self,
    {
        Token { kind: self.kind.clone(), pos: (self.pos.0, self.pos.1) }
    }
}

/// Mathematical image of a `Token`.
pub struct TokenV {
    pub kind: TokenKindV,
    pub pos: (int, int),
}

impl View for Token {
    type V = TokenV;

    open spec fn view(&self) -> TokenV {
        TokenV { kind: self.kind@, pos: (self.pos.0 as int, self.pos.1 as int) }
    }
}

impl Token {
    /// A placeholder token: `EOF` at position `(0, 0)`.
    pub fn uninited() -> (t: Token)
        ensures
            t@.kind == TokenKindV::EOF,
            t@.pos == (0int, 0int),
    {
        Token { kind: TokenKind::EOF, pos: (0, 0) }
    }
}

/// A fatal lexing diagnostic.
#[derive(Clone, Copy, Debug, PartialEq, Eq, Structural)]
pub enum LexError {
    /// A character with no lexical rule, at `(line, column)`.
    UndefinedCharacter(usize, usize, char),
    /// A digit string that is empty or holds a digit illegal for its base;
    /// the character is the offending digit, or the one that stopped an
    /// empty scan (`'\0'` at end of input).
    InvalidDigit(NumberBase, char),
}

/// A fatal parsing diagnostic.
#[derive(Clone, Debug, PartialEq, Eq)]
pub enum ParseError {
    /// `expect` mismatch: the required kind against the one found.
    UnexpectedToken { expected: TokenKind, actual: TokenKind },
    /// The token stream was exhausted mid-production.
    UnexpectedEndOfInput,
    /// A token with no prefix handler appeared where a prefix form was required.
    NoPrefixHandler(TokenKind),
    /// An integer literal that does not fit in `i32`.
    NumericOverflow(String),
    /// A digit string that is empty or holds a digit illegal for its base.
    InvalidDigit(NumberBase, char),
}

/// Mathematical image of a `ParseError`.
pub enum ParseErrorV {
    UnexpectedToken { expected: TokenKindV, actual: TokenKindV },
    UnexpectedEndOfInput,
    NoPrefixHandler(TokenKindV),
    NumericOverflow(Seq<char>),
    InvalidDigit(NumberBase, char),
}

impl View for ParseError {
    type V = ParseErrorV;

    open spec fn view(&self) -> ParseErrorV {
        match self {
            ParseError::UnexpectedToken { expected, actual } => ParseErrorV::UnexpectedToken {
                expected: expected@,
                actual: actual@,
            },
            ParseError::UnexpectedEndOfInput => ParseErrorV::UnexpectedEndOfInput,
            ParseError::NoPrefixHandler(k) => ParseErrorV::NoPrefixHandler(k@),
            ParseError::NumericOverflow(s) => ParseErrorV::NumericOverflow(s@),
            ParseError::InvalidDigit(b, c) => ParseErrorV::InvalidDigit(*b, *c),
        }
    }
}

/// A diagnostic from either phase of the pipeline.
#[derive(Clone, Debug, PartialEq, Eq)]
pub enum Error {
    Lex(LexError),
    Parse(ParseError),
}

/// Mathematical image of an `Error`.
pub enum ErrorV {
    Lex(LexError),
    Parse(ParseErrorV),
}

impl View for Error {
    type V = ErrorV;

    open spec fn view(&self) -> ErrorV {
        match self {
            Error::Lex(e) => ErrorV::Lex(*e),
            Error::Parse(e) => ErrorV::Parse(e@),
        }
    }
}

/// Whether `name` is one of the reserved words of the language.
pub open spec fn is_reserved_word(name: Seq<char>) -> bool {
    ||| name == "let"@
    ||| name == "struct"@
    ||| name == "return"@
    ||| name == "print"@
    ||| name == "println"@
    ||| name == "imm"@
    ||| name == "fn"@
    ||| name == "void"@
    ||| name == "i32"@
    ||| name == "f32"@
}

/// The kind of a completed identifier scan: the matching reserved word's
/// kind, or `IDENT` if the name is not reserved.
pub open spec fn keyword_kind(name: Seq<char>) -> TokenKindV {
    if name == "let"@ {
        TokenKindV::RESERVED(ReservedIDents::LET)
    } else if name == "struct"@ {
        TokenKindV::RESERVED(ReservedIDents::STRUCT)
    } else if name == "return"@ {
        TokenKindV::RETURN
    } else if name == "print"@ {
        TokenKindV::PRINT
    } else if name == "println"@ {
        TokenKindV::PRINTLN
    } else if name == "imm"@ {
        TokenKindV::IMMUTABLE
    } else if name == "fn"@ {
        TokenKindV::RESERVED(ReservedIDents::FUNCTION)
    } else if name == "void"@ {
        TokenKindV::RESERVED(ReservedIDents::VOID)
    } else if name == "i32"@ {
        TokenKindV::RESERVED(ReservedIDents::I32)
    } else if name == "f32"@ {
        TokenKindV::RESERVED(ReservedIDents::F32)
    } else {
        TokenKindV::IDENT(name)
    }
}

/// Match a scanned identifier against the reserved-word table.
pub fn match_keyword(name: String) -> (k: TokenKind)
    ensures
        k@ == keyword_kind(name@),
{
    if name == String::from_str("let") {
        TokenKind::RESERVED(ReservedIDents::LET)
    } else if name == String::from_str("struct") {
        TokenKind::RESERVED(ReservedIDents::STRUCT)
    } else if name == String::from_str("return") {
        TokenKind::RETURN
    } else if name == String::from_str("print") {
        TokenKind::PRINT
    } else if name == String::from_str("println") {
        TokenKind::PRINTLN
    } else if name == String::from_str("imm") {
        TokenKind::IMMUTABLE
    } else if name == String::from_str("fn") {
        TokenKind::RESERVED(ReservedIDents::FUNCTION)
    } else if name == String::from_str("void") {
        TokenKind::RESERVED(ReservedIDents::VOID)
    } else if name == String::from_str("i32") {
        TokenKind::RESERVED(ReservedIDents::I32)
    } else if name == String::from_str("f32") {
        TokenKind::RESERVED(ReservedIDents::F32)
    } else {
        TokenKind::IDENT(name)
    }
}

/// A well-formed token kind: integer literals carry a non-empty digit string
/// that is legal for their base, and identifiers are never reserved words.
pub open spec fn wf_kind(k: TokenKindV) -> bool {
    match k {
        TokenKindV::LITERAL(LiteralKindV::INT { base, val }) => val.len() > 0 && forall|i: int|
            0 <= i < val.len() ==> is_digit_for_base(base, val[i]),
        TokenKindV::IDENT(name) => name.len() > 0 && !is_reserved_word(name),
        _ => true,
    }
}

/// Structural equality of token kinds, decided at the level of their
/// mathematical images.
pub fn kind_eq(a: &TokenKind, b: &TokenKind) -> (r: bool)
    ensures
        r == (a@ == b@),
{
    match (a, b) {
        (TokenKind::LITERAL(LiteralKind::INT { base: b1, val: v1 }),
            TokenKind::LITERAL(LiteralKind::INT { base: b2, val: v2 })) => *b1 == *b2 && *v1
            == *v2,
        (TokenKind::LITERAL(LiteralKind::STRING(s1)),
            TokenKind::LITERAL(LiteralKind::STRING(s2))) => *s1 == *s2,
        (TokenKind::IDENT(s1), TokenKind::IDENT(s2)) => *s1 == *s2,
        (TokenKind::RESERVED(r1), TokenKind::RESERVED(r2)) => *r1 == *r2,
        (TokenKind::PLUS, TokenKind::PLUS) => true,
        (TokenKind::MINUS, TokenKind::MINUS) => true,
        (TokenKind::STAR, TokenKind::STAR) => true,
        (TokenKind::SLASH, TokenKind::SLASH) => true,
        (TokenKind::DECREMENT, TokenKind::DECREMENT) => true,
        (TokenKind::INCREMENT, TokenKind::INCREMENT) => true,
        (TokenKind::EQUAL, TokenKind::EQUAL) => true,
        (TokenKind::DEQUAL, TokenKind::DEQUAL) => true,
        (TokenKind::LT, TokenKind::LT) => true,
        (TokenKind::MT, TokenKind::MT) => true,
        (TokenKind::SEMICOLON, TokenKind::SEMICOLON) => true,
        (TokenKind::COLON, TokenKind::COLON) => true,
        (TokenKind::LBRACE, TokenKind::LBRACE) => true,
        (TokenKind::RBRACE, TokenKind::RBRACE) => true,
        (TokenKind::CLBRACE, TokenKind::CLBRACE) => true,
        (TokenKind::CRBRACE, TokenKind::CRBRACE) => true,
        (TokenKind::DQUOTE, TokenKind::DQUOTE) => true,
        (TokenKind::QUOTE, TokenKind::QUOTE) => true,
        (TokenKind::AMPERSAND, TokenKind::AMPERSAND) => true,
        (TokenKind::DOT, TokenKind::DOT) => true,
        (TokenKind::RANGE, TokenKind::RANGE) => true,
        (TokenKind::RETURN, TokenKind::RETURN) => true,
        (TokenKind::PRINT, TokenKind::PRINT) => true,
        (TokenKind::PRINTLN, TokenKind::PRINTLN) => true,
        (TokenKind::IMMUTABLE, TokenKind::IMMUTABLE) => true,
        (TokenKind::ARROW, TokenKind::ARROW) => true,
        (TokenKind::EOF, TokenKind::EOF) => true,
        _ => false,
    }
}

} // verus!
