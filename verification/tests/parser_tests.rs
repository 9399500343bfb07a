use ipic::ast::Node;
use ipic::grammar::{Error, LexError, LiteralKind, NumberBase, ParseError, ReservedIDents, TokenKind};
use ipic::lexer::tokenize;
use ipic::parser::{create_parse_stream, Parser};
use ipic::priority::{get_tok_priority, PriorityLevel};

fn parse(src: &str) -> Vec<Node> {
    create_parse_stream(src).expect("parsing should succeed")
}

fn integer(v: i32) -> Node {
    Node::INTEGER(v)
}

fn binary(lhs: Node, rhs: Node, op: TokenKind) -> Node {
    Node::BINARY { lhs: Box::new(lhs), rhs: Box::new(rhs), op }
}

#[test]
fn test_parser() {
    assert_eq!(
        parse("let test1 = 10 + 20;"),
        vec![Node::VAL {
            name: "test1".to_string(),
            expr: Box::new(binary(integer(10), integer(20), TokenKind::PLUS)),
        }]
    );

    assert_eq!(
        parse("let test_1 = 10 + 20;"),
        vec![Node::VAL {
            name: "test_1".to_string(),
            expr: Box::new(binary(integer(10), integer(20), TokenKind::PLUS)),
        }]
    );
}

#[test]
fn precedence_groups_tighter_operators_deeper() {
    assert_eq!(
        parse("1 + 2 * 3;"),
        vec![binary(
            integer(1),
            binary(integer(2), integer(3), TokenKind::STAR),
            TokenKind::PLUS,
        )]
    );
}

#[test]
fn parentheses_override_precedence() {
    assert_eq!(
        parse("(1 + 2) * 3;"),
        vec![binary(
            binary(integer(1), integer(2), TokenKind::PLUS),
            integer(3),
            TokenKind::STAR,
        )]
    );
}

#[test]
fn parenthesized_expression_parses_like_bare_one() {
    assert_eq!(parse("(1 + 2 * 3);"), parse("1 + 2 * 3;"));
    assert_eq!(parse("((42));"), parse("42;"));
}

#[test]
fn equal_precedence_is_left_associative() {
    assert_eq!(
        parse("1 - 2 + 3;"),
        vec![binary(
            binary(integer(1), integer(2), TokenKind::MINUS),
            integer(3),
            TokenKind::PLUS,
        )]
    );
}

#[test]
fn comparisons_bind_looser_than_sums() {
    assert_eq!(
        parse("1 + 2 < 3 == 4;"),
        vec![binary(
            binary(
                binary(integer(1), integer(2), TokenKind::PLUS),
                integer(3),
                TokenKind::LT,
            ),
            integer(4),
            TokenKind::DEQUAL,
        )]
    );
}

#[test]
fn unary_minus_binds_tighter_than_binary() {
    assert_eq!(
        parse("-5 + 3;"),
        vec![binary(
            Node::UNARY { val: Box::new(integer(5)), op: TokenKind::MINUS },
            integer(3),
            TokenKind::PLUS,
        )]
    );
}

#[test]
fn function_declaration() {
    assert_eq!(
        parse("fn main() { let a = 10 + 10; 20; }"),
        vec![Node::FUNCTION {
            name: "main".to_string(),
            arguments: Vec::new(),
            block: Box::new(Node::BLOCK(vec![
                Node::VAL {
                    name: "a".to_string(),
                    expr: Box::new(binary(integer(10), integer(10), TokenKind::PLUS)),
                },
                integer(20),
            ])),
            ret_type: TokenKind::RESERVED(ReservedIDents::VOID),
        }]
    );
}

#[test]
fn unbalanced_parens_fail_with_end_of_input() {
    let toks = tokenize("((").expect("lexing succeeds").toks;
    assert_eq!(toks.len(), 2);
    assert_eq!(toks[0].kind, TokenKind::LBRACE);
    assert_eq!(toks[1].kind, TokenKind::LBRACE);

    assert_eq!(
        create_parse_stream("((").err(),
        Some(Error::Parse(ParseError::UnexpectedEndOfInput))
    );
}

#[test]
fn integer_radix_round_trips() {
    assert_eq!(parse("0x1A;"), vec![integer(26)]);
    assert_eq!(parse("0b1010;"), vec![integer(10)]);
    assert_eq!(parse("0o17;"), vec![integer(15)]);
    assert_eq!(parse("26;"), vec![integer(26)]);
}

#[test]
fn integer_bounds() {
    assert_eq!(parse("2147483647;"), vec![integer(2147483647)]);
    assert_eq!(
        create_parse_stream("2147483648;").err(),
        Some(Error::Parse(ParseError::NumericOverflow("2147483648".to_string())))
    );
    assert_eq!(
        create_parse_stream("0x80000000;").err(),
        Some(Error::Parse(ParseError::NumericOverflow("80000000".to_string())))
    );
}

#[test]
fn missing_semicolon_is_unexpected_token() {
    assert_eq!(
        create_parse_stream("1 + 2").err(),
        Some(Error::Parse(ParseError::UnexpectedEndOfInput))
    );
    assert_eq!(
        create_parse_stream("(1;").err(),
        Some(Error::Parse(ParseError::UnexpectedToken {
            expected: TokenKind::RBRACE,
            actual: TokenKind::SEMICOLON,
        }))
    );
}

#[test]
fn tokens_without_prefix_rule_fail() {
    assert_eq!(
        create_parse_stream("*5;").err(),
        Some(Error::Parse(ParseError::NoPrefixHandler(TokenKind::STAR)))
    );
    assert_eq!(
        create_parse_stream("value;").err(),
        Some(Error::Parse(ParseError::NoPrefixHandler(TokenKind::IDENT(
            "value".to_string()
        ))))
    );
}

#[test]
fn let_requires_identifier_and_equal() {
    assert_eq!(
        create_parse_stream("let 5 = 3;").err(),
        Some(Error::Parse(ParseError::UnexpectedToken {
            expected: TokenKind::IDENT(String::new()),
            actual: TokenKind::LITERAL(LiteralKind::INT {
                base: NumberBase::DECIMAL,
                val: "5".to_string(),
            }),
        }))
    );
    assert_eq!(
        create_parse_stream("let a 3;").err(),
        Some(Error::Parse(ParseError::UnexpectedToken {
            expected: TokenKind::EQUAL,
            actual: TokenKind::LITERAL(LiteralKind::INT {
                base: NumberBase::DECIMAL,
                val: "3".to_string(),
            }),
        }))
    );
}

#[test]
fn lex_errors_surface_through_parsing() {
    assert_eq!(
        create_parse_stream("1 + #;").err(),
        Some(Error::Lex(LexError::UndefinedCharacter(0, 0, '#')))
    );
}

#[test]
fn several_statements_stream_in_order() {
    assert_eq!(
        parse("0xa + 20; (0xb + 0xa) + 10;"),
        vec![
            binary(integer(10), integer(20), TokenKind::PLUS),
            binary(
                binary(integer(11), integer(10), TokenKind::PLUS),
                integer(10),
                TokenKind::PLUS,
            ),
        ]
    );
}

#[test]
fn parse_node_steps_through_the_stream() {
    let stream = tokenize("1; 2;").expect("lexing succeeds");
    let mut parser = Parser::new(stream);
    assert_eq!(parser.parse_node(), Ok(Some(integer(1))));
    assert_eq!(parser.parse_node(), Ok(Some(integer(2))));
    assert_eq!(parser.parse_node(), Ok(None));
}

#[test]
fn priority_table_matches_design() {
    let rank = |k: &TokenKind| get_tok_priority(k).rank();
    assert_eq!(get_tok_priority(&TokenKind::LBRACE), PriorityLevel::LBRACE);
    assert_eq!(get_tok_priority(&TokenKind::SEMICOLON), PriorityLevel::LOWEST);
    assert!(rank(&TokenKind::DEQUAL) < rank(&TokenKind::LT));
    assert!(rank(&TokenKind::LT) < rank(&TokenKind::PLUS));
    assert!(rank(&TokenKind::PLUS) < rank(&TokenKind::STAR));
    assert!(rank(&TokenKind::STAR) < rank(&TokenKind::LBRACE));
    assert_eq!(rank(&TokenKind::PLUS), rank(&TokenKind::MINUS));
    assert_eq!(rank(&TokenKind::STAR), rank(&TokenKind::SLASH));
}
