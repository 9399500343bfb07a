use ipic::cursor::Cursor;
use ipic::grammar::{LexError, LiteralKind, NumberBase, ReservedIDents, Token, TokenKind};
use ipic::lexer::{tokenize, TokenIterator};

fn kinds(src: &str) -> Vec<TokenKind> {
    tokenize(src)
        .expect("lexing should succeed")
        .toks
        .into_iter()
        .map(|t| t.kind)
        .collect()
}

fn int_tok(base: NumberBase, digits: &str) -> TokenKind {
    TokenKind::LITERAL(LiteralKind::INT { base, val: digits.to_string() })
}

#[test]
fn test_lexer() {
    assert_eq!(
        kinds("let struct return print println imm fn "),
        vec![
            TokenKind::RESERVED(ReservedIDents::LET),
            TokenKind::RESERVED(ReservedIDents::STRUCT),
            TokenKind::RETURN,
            TokenKind::PRINT,
            TokenKind::PRINTLN,
            TokenKind::IMMUTABLE,
            TokenKind::RESERVED(ReservedIDents::FUNCTION),
        ]
    );

    assert_eq!(
        kinds("+ - / * . .. -> : ; "),
        vec![
            TokenKind::PLUS,
            TokenKind::MINUS,
            TokenKind::SLASH,
            TokenKind::STAR,
            TokenKind::DOT,
            TokenKind::RANGE,
            TokenKind::ARROW,
            TokenKind::COLON,
            TokenKind::SEMICOLON,
        ]
    );
}

#[test]
fn test_test_lexer() {
    assert_eq!(
        kinds("+ - / * "),
        vec![TokenKind::PLUS, TokenKind::MINUS, TokenKind::SLASH, TokenKind::STAR]
    );

    assert_eq!(
        kinds("10 + 10    - 2 + 4 / 3 )"),
        vec![
            int_tok(NumberBase::DECIMAL, "10"),
            TokenKind::PLUS,
            int_tok(NumberBase::DECIMAL, "10"),
            TokenKind::MINUS,
            int_tok(NumberBase::DECIMAL, "2"),
            TokenKind::PLUS,
            int_tok(NumberBase::DECIMAL, "4"),
            TokenKind::SLASH,
            int_tok(NumberBase::DECIMAL, "3"),
            TokenKind::RBRACE,
        ]
    );

    assert_eq!(
        kinds("0x19 0x20 0b101 010"),
        vec![
            int_tok(NumberBase::HEX, "19"),
            int_tok(NumberBase::HEX, "20"),
            int_tok(NumberBase::BINARY, "101"),
            int_tok(NumberBase::DECIMAL, "10"),
        ]
    );
}

#[test]
fn multi_char_operators() {
    assert_eq!(
        kinds("++ -- == = < > { } ( ) \" ' &"),
        vec![
            TokenKind::INCREMENT,
            TokenKind::DECREMENT,
            TokenKind::DEQUAL,
            TokenKind::EQUAL,
            TokenKind::LT,
            TokenKind::MT,
            TokenKind::CLBRACE,
            TokenKind::CRBRACE,
            TokenKind::LBRACE,
            TokenKind::RBRACE,
            TokenKind::DQUOTE,
            TokenKind::QUOTE,
            TokenKind::AMPERSAND,
        ]
    );
}

#[test]
fn digit_normalization() {
    // Underscores are consumed but stripped; radix prefixes are not part of
    // the digit string; a lone zero lexes as decimal "0".
    assert_eq!(kinds("1_000"), vec![int_tok(NumberBase::DECIMAL, "1000")]);
    assert_eq!(kinds("0x1_A"), vec![int_tok(NumberBase::HEX, "1A")]);
    assert_eq!(kinds("0"), vec![int_tok(NumberBase::DECIMAL, "0")]);
    assert_eq!(kinds("0o17"), vec![int_tok(NumberBase::OCTAL, "17")]);
    assert_eq!(kinds("010"), vec![int_tok(NumberBase::DECIMAL, "10")]);
}

#[test]
fn reserved_words_are_exact() {
    // A reserved word is matched against the whole identifier only.
    assert_eq!(kinds("letx"), vec![TokenKind::IDENT("letx".to_string())]);
    assert_eq!(kinds("void i32 f32"), vec![
        TokenKind::RESERVED(ReservedIDents::VOID),
        TokenKind::RESERVED(ReservedIDents::I32),
        TokenKind::RESERVED(ReservedIDents::F32),
    ]);
    assert_eq!(kinds("_x1"), vec![TokenKind::IDENT("_x1".to_string())]);
}

#[test]
fn unicode_identifiers() {
    // Identifier classification goes through the XID tables.
    assert_eq!(kinds("αβ"), vec![TokenKind::IDENT("αβ".to_string())]);
}

#[test]
fn comments_and_newlines() {
    assert_eq!(
        kinds("1 // a comment\n2"),
        vec![int_tok(NumberBase::DECIMAL, "1"), int_tok(NumberBase::DECIMAL, "2")]
    );
    let toks = tokenize("1\n2").expect("lexing should succeed").toks;
    assert_eq!(toks[0].pos, (0, 0));
    assert_eq!(toks[1].pos, (1, 0));
}

#[test]
fn lexer_rejects_undefined_characters() {
    assert_eq!(tokenize("#").err(), Some(LexError::UndefinedCharacter(0, 0, '#')));
}

#[test]
fn lexer_rejects_illegal_digits() {
    assert_eq!(tokenize("0b7").err(), Some(LexError::InvalidDigit(NumberBase::BINARY, '7')));
    assert_eq!(tokenize("0o9").err(), Some(LexError::InvalidDigit(NumberBase::OCTAL, '9')));
    assert_eq!(tokenize("0x").err(), Some(LexError::InvalidDigit(NumberBase::HEX, '\0')));
}

#[test]
fn tokenizer_totality_on_empty_and_blank() {
    // The end of the input is a termination signal, never a token.
    assert_eq!(tokenize("").unwrap().toks.len(), 0);
    assert_eq!(tokenize("   ").unwrap().toks.len(), 0);
    assert_eq!(tokenize("// only a comment").unwrap().toks.len(), 0);
    assert_eq!(tokenize("\n\n").unwrap().toks.len(), 0);
}

#[test]
fn cursor_basics() {
    let mut c = Cursor::new("ab");
    assert!(!c.is_eof());
    assert_eq!(c.first(), 'a');
    assert_eq!(c.second(), 'b');
    assert_eq!(c.bump(), Some('a'));
    assert_eq!(c.bump(), Some('b'));
    assert_eq!(c.bump(), None);
    assert!(c.is_eof());
    assert_eq!(c.first(), '\0');
    assert_eq!(c.second(), '\0');
}

#[test]
fn cursor_eat_while() {
    let mut c = Cursor::new("aaab");
    c.eat_while(|ch| ch == 'a');
    assert_eq!(c.first(), 'b');
    let mut d = Cursor::new("xyz");
    d.eat_while(|ch| ch != '\0');
    assert!(d.is_eof());
}

#[test]
fn token_uninited_is_eof() {
    let t = Token::uninited();
    assert_eq!(t.kind, TokenKind::EOF);
    assert_eq!(t.pos, (0, 0));
}

#[test]
fn token_iterator_starts_at_zero() {
    let it = TokenIterator::new(tokenize("1 2").unwrap().toks);
    assert_eq!(it.pos, 0);
    assert_eq!(it.toks.len(), 2);
}
