//! The Pratt (operator-precedence) parser: a mathematical description of
//! parsing over token-kind sequences, and the executable parser proved
//! against it.

use vstd::prelude::*;
use crate::ast::{lemma_nodes_view_push, nodes_view, Node, NodeV};
use crate::chars::digit_value;
use crate::grammar::{
    base_radix, is_digit_for_base, kind_eq, Error, ErrorV, LiteralKind, LiteralKindV, NumberBase,
    ParseError, ParseErrorV, ReservedIDents, Token, TokenKind, TokenKindV, TokenV,
};
use crate::lexer::{
    first_illegal, lemma_first_illegal, spec_tokenize_from, tokenize, TokenIterator,
};
use crate::priority::{get_tok_priority, spec_prio, spec_rank, PriorityLevel};

verus! {

/// The value of a digit string read in the given radix, most significant
/// digit first.
pub open spec fn digits_value(d: Seq<char>, radix: int) -> int
    decreases d.len(),
{
    if d.len() == 0 {
        0
    } else {
        digits_value(d.drop_last(), radix) * radix + digit_value(d.last())
    }
}

/// Convert a digit string of the given base to an `INTEGER` node: rejected
/// when empty or holding an illegal digit, or when the value does not fit in
/// `i32`.
pub open spec fn spec_to_num(base: NumberBase, val: Seq<char>) -> Result<NodeV, ParseErrorV> {
    if val.len() == 0 {
        Err(ParseErrorV::InvalidDigit(base, '\0'))
    } else if first_illegal(base, val) >= 0 {
        Err(ParseErrorV::InvalidDigit(base, val[first_illegal(base, val)]))
    } else if digits_value(val, base_radix(base)) > i32::MAX as int {
        Err(ParseErrorV::NumericOverflow(val))
    } else {
        Ok(NodeV::INTEGER(digits_value(val, base_radix(base)) as i32))
    }
}

/// The prefix handling of a literal token: integers convert, the reserved
/// string form has no prefix rule.
pub open spec fn spec_parse_literal(lit: LiteralKindV) -> Result<NodeV, ParseErrorV> {
    match lit {
        LiteralKindV::INT { base, val } => spec_to_num(base, val),
        LiteralKindV::STRING(s) => Err(
            ParseErrorV::NoPrefixHandler(TokenKindV::LITERAL(LiteralKindV::STRING(s))),
        ),
    }
}

/// Whether a token kind has an infix handler.
pub open spec fn spec_is_infix(k: TokenKindV) -> bool {
    match k {
        TokenKindV::PLUS => true,
        TokenKindV::MINUS => true,
        TokenKindV::STAR => true,
        TokenKindV::SLASH => true,
        TokenKindV::LT => true,
        TokenKindV::MT => true,
        TokenKindV::DEQUAL => true,
        _ => false,
    }
}

/// One infix step: consume the operator at the head of `ts`, parse the right
/// operand at the operator's own precedence (hence left associativity), and
/// build the `BINARY` node.
pub open spec fn spec_parse_binary(left: NodeV, ts: Seq<TokenKindV>) -> Result<
    (NodeV, Seq<TokenKindV>),
    ParseErrorV,
>
    decreases ts.len(), 0int,
{
    if ts.len() == 0 {
        Err(ParseErrorV::UnexpectedEndOfInput)
    } else {
        let op = ts[0];
        match spec_parse_expr(ts.drop_first(), spec_prio(op)) {
            Ok((rhs, r)) => Ok(
                (NodeV::BINARY { lhs: Box::new(left), rhs: Box::new(rhs), op }, r),
            ),
            Err(e) => Err(e),
        }
    }
}

/// The Pratt loop: absorb infix operators into `left` while the lookahead
/// binds tighter than `prio`, is no statement terminator, and has an infix
/// handler.
pub open spec fn spec_parse_loop(left: NodeV, ts: Seq<TokenKindV>, prio: int) -> Result<
    (NodeV, Seq<TokenKindV>),
    ParseErrorV,
>
    decreases ts.len(), 1int,
{
    if ts.len() == 0 {
        Ok((left, ts))
    } else if prio >= spec_prio(ts[0]) {
        Ok((left, ts))
    } else if ts[0] == TokenKindV::SEMICOLON {
        Ok((left, ts))
    } else if spec_is_infix(ts[0]) {
        match spec_parse_binary(left, ts) {
            Ok((node, r)) => {
                if r.len() < ts.len() {
                    spec_parse_loop(node, r, prio)
                } else {
                    Ok((node, r))
                }
            },
            Err(e) => Err(e),
        }
    } else {
        Ok((left, ts))
    }
}

/// The prefix dispatch: integer literals convert directly; `let`, a round
/// brace and the unary operators have handlers; everything else fails.
pub open spec fn spec_parse_prefix(ts: Seq<TokenKindV>) -> Result<
    (NodeV, Seq<TokenKindV>),
    ParseErrorV,
>
    decreases ts.len(), 2int,
{
    if ts.len() == 0 {
        Err(ParseErrorV::UnexpectedEndOfInput)
    } else {
        let k = ts[0];
        let t = ts.drop_first();
        match k {
            TokenKindV::LITERAL(lit) => match spec_parse_literal(lit) {
                Ok(n) => Ok((n, t)),
                Err(e) => Err(e),
            },
            TokenKindV::LBRACE => match spec_parse_expr(t, 0) {
                Ok((n, r)) => {
                    if r.len() == 0 {
                        Err(ParseErrorV::UnexpectedEndOfInput)
                    } else if r[0] == TokenKindV::RBRACE {
                        Ok((n, r.drop_first()))
                    } else {
                        Err(
                            ParseErrorV::UnexpectedToken {
                                expected: TokenKindV::RBRACE,
                                actual: r[0],
                            },
                        )
                    }
                },
                Err(e) => Err(e),
            },
            TokenKindV::RESERVED(ReservedIDents::LET) => spec_parse_let(t),
            TokenKindV::PLUS => spec_parse_unary(k, t),
            TokenKindV::MINUS => spec_parse_unary(k, t),
            TokenKindV::INCREMENT => spec_parse_unary(k, t),
            TokenKindV::DECREMENT => spec_parse_unary(k, t),
            _ => Err(ParseErrorV::NoPrefixHandler(k)),
        }
    }
}

/// A unary prefix form: parse the operand at `PREFIX` precedence and wrap
/// it. `ts` is the input after the operator.
pub open spec fn spec_parse_unary(op: TokenKindV, ts: Seq<TokenKindV>) -> Result<
    (NodeV, Seq<TokenKindV>),
    ParseErrorV,
>
    decreases ts.len(), 4int,
{
    match spec_parse_expr(ts, spec_rank(PriorityLevel::PREFIX)) {
        Ok((n, r)) => Ok((NodeV::UNARY { val: Box::new(n), op }, r)),
        Err(e) => Err(e),
    }
}

/// A `let` binding: require an identifier, require `=`, then parse the bound
/// expression at `LOWEST`. `ts` is the input after `let`.
pub open spec fn spec_parse_let(ts: Seq<TokenKindV>) -> Result<
    (NodeV, Seq<TokenKindV>),
    ParseErrorV,
>
    decreases ts.len(), 0int,
{
    if ts.len() == 0 {
        Err(ParseErrorV::UnexpectedEndOfInput)
    } else {
        match ts[0] {
            TokenKindV::IDENT(name) => {
                if ts.len() == 1 {
                    Err(ParseErrorV::UnexpectedEndOfInput)
                } else if ts[1] != TokenKindV::EQUAL {
                    Err(
                        ParseErrorV::UnexpectedToken { expected: TokenKindV::EQUAL, actual: ts[1] },
                    )
                } else {
                    match spec_parse_expr(ts.skip(2), 0) {
                        Ok((n, r)) => Ok((NodeV::VAL { name, expr: Box::new(n) }, r)),
                        Err(e) => Err(e),
                    }
                }
            },
            _ => Err(
                ParseErrorV::UnexpectedToken {
                    expected: TokenKindV::IDENT(Seq::<char>::empty()),
                    actual: ts[0],
                },
            ),
        }
    }
}

/// A whole expression at the given precedence: a prefix form, then the Pratt
/// loop.
pub open spec fn spec_parse_expr(ts: Seq<TokenKindV>, prio: int) -> Result<
    (NodeV, Seq<TokenKindV>),
    ParseErrorV,
>
    decreases ts.len(), 3int,
{
    match spec_parse_prefix(ts) {
        Ok((left, r)) => {
            if r.len() < ts.len() {
                spec_parse_loop(left, r, prio)
            } else {
                Ok((left, r))
            }
        },
        Err(e) => Err(e),
    }
}

/// A statement: an expression at `LOWEST` terminated by `;`.
pub open spec fn spec_parse_statement(ts: Seq<TokenKindV>) -> Result<
    (NodeV, Seq<TokenKindV>),
    ParseErrorV,
>
    decreases ts.len(), 5int,
{
    match spec_parse_expr(ts, 0) {
        Ok((n, r)) => {
            if r.len() == 0 {
                Err(ParseErrorV::UnexpectedEndOfInput)
            } else if r[0] == TokenKindV::SEMICOLON {
                Ok((n, r.drop_first()))
            } else {
                Err(
                    ParseErrorV::UnexpectedToken {
                        expected: TokenKindV::SEMICOLON,
                        actual: r[0],
                    },
                )
            }
        },
        Err(e) => Err(e),
    }
}

/// A block: statements until the lookahead is `}` (which is left in place).
pub open spec fn spec_parse_block(ts: Seq<TokenKindV>) -> Result<
    (Seq<NodeV>, Seq<TokenKindV>),
    ParseErrorV,
>
    decreases ts.len(), 6int,
{
    if ts.len() == 0 {
        Err(ParseErrorV::UnexpectedEndOfInput)
    } else if ts[0] == TokenKindV::CRBRACE {
        Ok((Seq::<NodeV>::empty(), ts))
    } else {
        match spec_parse_statement(ts) {
            Ok((n, r)) => {
                if r.len() < ts.len() {
                    match spec_parse_block(r) {
                        Ok((ns, r2)) => Ok((seq![n] + ns, r2)),
                        Err(e) => Err(e),
                    }
                } else {
                    Ok((seq![n], r))
                }
            },
            Err(e) => Err(e),
        }
    }
}

/// A function declaration after the `fn` keyword: name, an empty parameter
/// list, then a braced block; the return type defaults to `void`.
pub open spec fn spec_parse_function(ts: Seq<TokenKindV>) -> Result<
    (NodeV, Seq<TokenKindV>),
    ParseErrorV,
>
    decreases ts.len(), 0int,
{
    if ts.len() == 0 {
        Err(ParseErrorV::UnexpectedEndOfInput)
    } else {
        match ts[0] {
            TokenKindV::IDENT(name) => {
                if ts.len() == 1 {
                    Err(ParseErrorV::UnexpectedEndOfInput)
                } else if ts[1] != TokenKindV::LBRACE {
                    Err(
                        ParseErrorV::UnexpectedToken {
                            expected: TokenKindV::LBRACE,
                            actual: ts[1],
                        },
                    )
                } else if ts.len() == 2 {
                    Err(ParseErrorV::UnexpectedEndOfInput)
                } else if ts[2] != TokenKindV::RBRACE {
                    Err(
                        ParseErrorV::UnexpectedToken {
                            expected: TokenKindV::RBRACE,
                            actual: ts[2],
                        },
                    )
                } else if ts.len() == 3 {
                    Err(ParseErrorV::UnexpectedEndOfInput)
                } else if ts[3] != TokenKindV::CLBRACE {
                    Err(
                        ParseErrorV::UnexpectedToken {
                            expected: TokenKindV::CLBRACE,
                            actual: ts[3],
                        },
                    )
                } else {
                    match spec_parse_block(ts.skip(4)) {
                        Ok((ns, r)) => {
                            if r.len() == 0 {
                                Err(ParseErrorV::UnexpectedEndOfInput)
                            } else if r[0] == TokenKindV::CRBRACE {
                                Ok(
                                    (
                                        NodeV::FUNCTION {
                                            name,
                                            arguments: Seq::<NodeV>::empty(),
                                            block: Box::new(NodeV::BLOCK(ns)),
                                            ret_type: TokenKindV::RESERVED(ReservedIDents::VOID),
                                        },
                                        r.drop_first(),
                                    ),
                                )
                            } else {
                                Err(
                                    ParseErrorV::UnexpectedToken {
                                        expected: TokenKindV::CRBRACE,
                                        actual: r[0],
                                    },
                                )
                            }
                        },
                        Err(e) => Err(e),
                    }
                }
            },
            _ => Err(
                ParseErrorV::UnexpectedToken {
                    expected: TokenKindV::IDENT(Seq::<char>::empty()),
                    actual: ts[0],
                },
            ),
        }
    }
}

/// One top-level node: a function declaration after `fn`, anything else a
/// statement.
pub open spec fn spec_parse_node(ts: Seq<TokenKindV>) -> Result<
    (NodeV, Seq<TokenKindV>),
    ParseErrorV,
>
    decreases ts.len(), 6int,
{
    if ts.len() == 0 {
        Err(ParseErrorV::UnexpectedEndOfInput)
    } else if ts[0] == TokenKindV::RESERVED(ReservedIDents::FUNCTION) {
        spec_parse_function(ts.drop_first())
    } else {
        spec_parse_statement(ts)
    }
}

/// The whole program: top-level nodes until the tokens are exhausted.
pub open spec fn spec_parse_program(ts: Seq<TokenKindV>) -> Result<Seq<NodeV>, ParseErrorV>
    decreases ts.len(), 7int,
{
    if ts.len() == 0 {
        Ok(Seq::<NodeV>::empty())
    } else {
        match spec_parse_node(ts) {
            Ok((n, r)) => {
                if r.len() < ts.len() {
                    match spec_parse_program(r) {
                        Ok(ns) => Ok(seq![n] + ns),
                        Err(e) => Err(e),
                    }
                } else {
                    Ok(seq![n])
                }
            },
            Err(e) => Err(e),
        }
    }
}

/// The kinds of a token-view sequence.
pub open spec fn kinds_of(ts: Seq<TokenV>) -> Seq<TokenKindV> {
    ts.map_values(|t: TokenV| t.kind)
}

/// What a source string parses to: its tokens fed to the program parser, or
/// the first diagnostic of either phase.
pub open spec fn spec_parse_source(s: Seq<char>) -> Result<Seq<NodeV>, ErrorV> {
    match spec_tokenize_from(s, 0, 0) {
        Err(e) => Err(ErrorV::Lex(e)),
        Ok(ts) => match spec_parse_program(kinds_of(ts)) {
            Ok(ns) => Ok(ns),
            Err(e) => Err(ErrorV::Parse(e)),
        },
    }
}

/// The value of a digit string is never negative.
pub proof fn lemma_digits_value_nonneg(d: Seq<char>, radix: int)
    requires
        radix >= 2,
    ensures
        digits_value(d, radix) >= 0,
    decreases d.len(),
{
    if d.len() > 0 {
        lemma_digits_value_nonneg(d.drop_last(), radix);
        let v = digits_value(d.drop_last(), radix);
        assert(v * radix >= 0) by (nonlinear_arith)
            requires
                v >= 0,
                radix >= 2,
        ;
    }
}

/// Reading more digits never shrinks the value.
pub proof fn lemma_digits_value_prefix(d: Seq<char>, radix: int, k: int)
    requires
        radix >= 2,
        0 <= k <= d.len(),
    ensures
        digits_value(d.subrange(0, k), radix) <= digits_value(d, radix),
    decreases d.len() - k,
{
    if k == d.len() {
        assert(d.subrange(0, k) =~= d);
    } else {
        let p = d.subrange(0, k);
        let q = d.subrange(0, k + 1);
        assert(q.drop_last() =~= p);
        let v = digits_value(p, radix);
        lemma_digits_value_nonneg(p, radix);
        assert(v * radix >= v) by (nonlinear_arith)
            requires
                v >= 0,
                radix >= 2,
        ;
        lemma_digits_value_prefix(d, radix, k + 1);
    }
}

/// The kinds of a token vector.
pub open spec fn kinds_of_toks(toks: Seq<Token>) -> Seq<TokenKindV> {
    toks.map_values(|t: Token| t@.kind)
}

/// The parser: a token vector with the index of the next unread token; the
/// dispatch tables of the design are the match arms of `parse_prefix` and
/// `has_infix_handler`.
pub struct Parser {
    pub toks: Vec<Token>,
    pub pos: usize,
}

impl Parser {
    /// The kinds of the whole token stream.
    pub open spec fn kinds(&self) -> Seq<TokenKindV> {
        kinds_of_toks(self.toks@)
    }

    /// The kinds of the unread tokens.
    pub open spec fn rem(&self) -> Seq<TokenKindV> {
        self.kinds().skip(self.pos as int)
    }

    /// The read position never passes the end of the stream.
    pub open spec fn wf(&self) -> bool {
        self.pos <= self.toks@.len()
    }

    /// Start a parser over a token stream.
    pub fn new(stream: TokenIterator) -> (p: Parser)
        requires
            stream.pos <= stream.toks@.len(),
        ensures
            p.wf(),
            p.toks == stream.toks,
            p.pos == stream.pos,
    {
        Parser { toks: stream.toks, pos: stream.pos }
    }

    /// Consume and return the next token, or nothing at the end.
    pub fn bump(&mut self) -> (r: Option<Token>)
        requires
            old(self).wf(),
        ensures
            final(self).wf(),
            final(self).toks == old(self).toks,
            old(self).rem().len() == 0 ==> r is None && *final(self) == *old(self),
            old(self).rem().len() > 0 ==> {
                &&& r matches Some(t) && t == old(self).toks@[old(self).pos as int] && t@.kind
                    == old(self).rem()[0]
                &&& final(self).pos == old(self).pos + 1
                &&& final(self).rem() == old(self).rem().drop_first()
            },
    {
        if self.pos < self.toks.len() {
            let t = self.toks[self.pos].clone();
            self.pos = self.pos + 1;
            proof {
                assert(old(self).rem()[0] == old(self).kinds()[old(self).pos as int]);
                assert(final(self).rem() =~= old(self).rem().drop_first());
            }
            Some(t)
        } else {
            None
        }
    }

    /// Peek the kind of the next token without consuming.
    pub fn peek_kind(&self) -> (r: Option<TokenKind>)
        requires
            self.wf(),
        ensures
            match r {
                Some(k) => self.rem().len() > 0 && k@ == self.rem()[0],
                None => self.rem().len() == 0,
            },
    {
        if self.pos < self.toks.len() {
            let k = self.toks[self.pos].kind.clone();
            proof {
                assert(self.rem()[0] == self.kinds()[self.pos as int]);
            }
            Some(k)
        } else {
            None
        }
    }

    /// Consume one token and require its kind to equal `needed`.
    pub fn validate_tok_type(&mut self, needed: TokenKind) -> (r: Result<(), ParseError>)
        requires
            old(self).wf(),
        ensures
            final(self).wf(),
            final(self).toks == old(self).toks,
            old(self).pos <= final(self).pos,
            old(self).rem().len() == 0 ==> (r matches Err(e) && e@
                == ParseErrorV::UnexpectedEndOfInput),
            old(self).rem().len() > 0 && old(self).rem()[0] == needed@ ==> {
                &&& r is Ok
                &&& final(self).pos == old(self).pos + 1
                &&& final(self).rem() == old(self).rem().drop_first()
            },
            old(self).rem().len() > 0 && old(self).rem()[0] != needed@ ==> (r matches Err(e)
                && e@ == (ParseErrorV::UnexpectedToken {
                expected: needed@,
                actual: old(self).rem()[0],
            })),
    {
        match self.bump() {
            None => Err(ParseError::UnexpectedEndOfInput),
            Some(t) => {
                if kind_eq(&t.kind, &needed) {
                    Ok(())
                } else {
                    Err(ParseError::UnexpectedToken { expected: needed, actual: t.kind })
                }
            },
        }
    }

    /// Whether the kind has an infix handler.
    pub fn has_infix_handler(k: &TokenKind) -> (r: bool)
        ensures
            r == spec_is_infix(k@),
    {
        match k {
            TokenKind::PLUS => true,
            TokenKind::MINUS => true,
            TokenKind::STAR => true,
            TokenKind::SLASH => true,
            TokenKind::LT => true,
            TokenKind::MT => true,
            TokenKind::DEQUAL => true,
            _ => false,
        }
    }

    /// Convert a digit string to an `INTEGER` node by the appropriate radix.
    pub fn parse_to_num_expr(&mut self, base: NumberBase, val: String) -> (r: Result<
        Node,
        ParseError,
    >)
        ensures
            *final(self) == *old(self),
            match spec_to_num(base, val@) {
                Ok(nv) => r matches Ok(n) && n@ == nv,
                Err(e) => r matches Err(pe) && pe@ == e,
            },
    {
        let n = val.as_str().unicode_len();
        if n == 0 {
            return Err(ParseError::InvalidDigit(base, '\0'));
        }
        let mut i: usize = 0;
        while i < n
            invariant
                i <= n,
                n == val@.len(),
                forall|j: int| 0 <= j < i ==> is_digit_for_base(base, #[trigger] val@[j]),
            decreases n - i,
        {
            let c = val.as_str().get_char(i);
            if !crate::grammar::digit_for_base(base, c) {
                proof {
                    lemma_first_illegal(base, val@);
                }
                return Err(ParseError::InvalidDigit(base, c));
            }
            i = i + 1;
        }
        proof {
            lemma_first_illegal(base, val@);
        }
        let ghost radix = base_radix(base);
        let mut acc: i64 = 0;
        let mut idx: usize = 0;
        while idx < n
            invariant
                idx <= n,
                n == val@.len(),
                forall|j: int| 0 <= j < n ==> is_digit_for_base(base, #[trigger] val@[j]),
                0 <= acc <= i32::MAX as i64,
                acc as int == digits_value(val@.subrange(0, idx as int), radix),
                radix == base_radix(base),
            decreases n - idx,
        {
            let c = val.as_str().get_char(idx);
            let d = crate::chars::digit_val(c);
            let step: i64 = (match base {
                NumberBase::BINARY => acc * 2,
                NumberBase::OCTAL => acc * 8,
                NumberBase::DECIMAL => acc * 10,
                NumberBase::HEX => acc * 16,
            }) + (d as i64);
            proof {
                assert(val@.subrange(0, idx + 1).drop_last() =~= val@.subrange(0, idx as int));
                assert(step as int == digits_value(val@.subrange(0, idx + 1), radix));
            }
            if step > 2147483647i64 {
                proof {
                    lemma_first_illegal(base, val@);
                    lemma_digits_value_prefix(val@, radix, idx + 1);
                }
                return Err(ParseError::NumericOverflow(val));
            }
            acc = step;
            idx = idx + 1;
        }
        proof {
            assert(val@.subrange(0, n as int) =~= val@);
        }
        Ok(Node::INTEGER(acc as i32))
    }

    /// Convert a literal token to a node; only integer literals have a rule.
    pub fn parse_literal(&mut self, literal: LiteralKind) -> (r: Result<Node, ParseError>)
        ensures
            *final(self) == *old(self),
            match spec_parse_literal(literal@) {
                Ok(nv) => r matches Ok(n) && n@ == nv,
                Err(e) => r matches Err(pe) && pe@ == e,
            },
    {
        match literal {
            LiteralKind::INT { base, val } => self.parse_to_num_expr(base, val),
            LiteralKind::STRING(s) => Err(
                ParseError::NoPrefixHandler(TokenKind::LITERAL(LiteralKind::STRING(s))),
            ),
        }
    }

    /// A parenthesized expression: parse at `LOWEST`, require `)`. The
    /// opening round brace has already been consumed.
    pub fn parse_in_brace(&mut self) -> (r: Result<Node, ParseError>)
        requires
            old(self).wf(),
        ensures
            final(self).wf(),
            final(self).toks == old(self).toks,
            old(self).pos <= final(self).pos,
            match spec_parse_prefix(
                seq![TokenKindV::LBRACE] + old(self).rem(),
            ) {
                Ok((nv, rest)) => r matches Ok(n) && n@ == nv && final(self).rem() == rest && old(self).pos < final(self).pos,
                Err(e) => r matches Err(pe) && pe@ == e,
            },
        decreases old(self).rem().len(), 4int,
    {
        proof {
            assert((seq![TokenKindV::LBRACE] + old(self).rem()).drop_first() =~= old(self).rem());
        }
        let result = match self.parse_prioritized_expr(PriorityLevel::LOWEST) {
            Ok(n) => n,
            Err(e) => {
                return Err(e);
            },
        };
        match self.validate_tok_type(TokenKind::RBRACE) {
            Ok(_) => Ok(result),
            Err(e) => Err(e),
        }
    }

    /// A unary prefix form; the operator has already been consumed.
    pub fn parse_unary(&mut self, op: TokenKind) -> (r: Result<Node, ParseError>)
        requires
            old(self).wf(),
        ensures
            final(self).wf(),
            final(self).toks == old(self).toks,
            old(self).pos <= final(self).pos,
            match spec_parse_unary(op@, old(self).rem()) {
                Ok((nv, rest)) => r matches Ok(n) && n@ == nv && final(self).rem() == rest && old(self).pos < final(self).pos,
                Err(e) => r matches Err(pe) && pe@ == e,
            },
        decreases old(self).rem().len(), 4int,
    {
        match self.parse_prioritized_expr(PriorityLevel::PREFIX) {
            Ok(n) => Ok(Node::UNARY { val: Box::new(n), op }),
            Err(e) => Err(e),
        }
    }

    /// A `let` binding; the `let` keyword has already been consumed.
    pub fn parse_var(&mut self) -> (r: Result<Node, ParseError>)
        requires
            old(self).wf(),
        ensures
            final(self).wf(),
            final(self).toks == old(self).toks,
            old(self).pos <= final(self).pos,
            match spec_parse_let(old(self).rem()) {
                Ok((nv, rest)) => r matches Ok(n) && n@ == nv && final(self).rem() == rest && old(self).pos < final(self).pos,
                Err(e) => r matches Err(pe) && pe@ == e,
            },
        decreases old(self).rem().len(), 1int,
    {
        let name_tok = match self.bump() {
            Some(t) => t,
            None => {
                return Err(ParseError::UnexpectedEndOfInput);
            },
        };
        match name_tok.kind {
            TokenKind::IDENT(val) => {
                match self.validate_tok_type(TokenKind::EQUAL) {
                    Ok(_) => {},
                    Err(e) => {
                        return Err(e);
                    },
                }
                proof {
                    assert(old(self).rem().drop_first().drop_first() =~= old(self).rem().skip(2));
                }
                match self.parse_prioritized_expr(PriorityLevel::LOWEST) {
                    Ok(n) => Ok(Node::VAL { name: val, expr: Box::new(n) }),
                    Err(e) => Err(e),
                }
            },
            other => Err(
                ParseError::UnexpectedToken {
                    expected: TokenKind::IDENT(String::new()),
                    actual: other,
                },
            ),
        }
    }

    /// One infix step: consume the operator, parse the right operand at the
    /// operator's own precedence, and build the `BINARY` node.
    pub fn parse_binary(&mut self, prefix: Node) -> (r: Result<Node, ParseError>)
        requires
            old(self).wf(),
        ensures
            final(self).wf(),
            final(self).toks == old(self).toks,
            old(self).pos <= final(self).pos,
            match spec_parse_binary(prefix@, old(self).rem()) {
                Ok((nv, rest)) => r matches Ok(n) && n@ == nv && final(self).rem() == rest && old(self).pos < final(self).pos,
                Err(e) => r matches Err(pe) && pe@ == e,
            },
        decreases old(self).rem().len(), 0int,
    {
        let op_tok = match self.bump() {
            Some(t) => t,
            None => {
                return Err(ParseError::UnexpectedEndOfInput);
            },
        };
        let prio = get_tok_priority(&op_tok.kind);
        match self.parse_prioritized_expr(prio) {
            Ok(rhs) => Ok(
                Node::BINARY { lhs: Box::new(prefix), rhs: Box::new(rhs), op: op_tok.kind },
            ),
            Err(e) => Err(e),
        }
    }

    /// The prefix dispatch on the next token.
    pub fn parse_prefix(&mut self) -> (r: Result<Node, ParseError>)
        requires
            old(self).wf(),
        ensures
            final(self).wf(),
            final(self).toks == old(self).toks,
            old(self).pos <= final(self).pos,
            match spec_parse_prefix(old(self).rem()) {
                Ok((nv, rest)) => r matches Ok(n) && n@ == nv && final(self).rem() == rest && old(self).pos < final(self).pos,
                Err(e) => r matches Err(pe) && pe@ == e,
            },
        decreases old(self).rem().len(), 2int,
    {
        let tok = match self.bump() {
            Some(t) => t,
            None => {
                return Err(ParseError::UnexpectedEndOfInput);
            },
        };
        match tok.kind {
            TokenKind::LITERAL(lit) => self.parse_literal(lit),
            TokenKind::LBRACE => {
                proof {
                    assert(seq![TokenKindV::LBRACE] + self.rem() =~= old(self).rem());
                }
                self.parse_in_brace()
            },
            TokenKind::RESERVED(ReservedIDents::LET) => self.parse_var(),
            TokenKind::PLUS => self.parse_unary(TokenKind::PLUS),
            TokenKind::MINUS => self.parse_unary(TokenKind::MINUS),
            TokenKind::INCREMENT => self.parse_unary(TokenKind::INCREMENT),
            TokenKind::DECREMENT => self.parse_unary(TokenKind::DECREMENT),
            other => Err(ParseError::NoPrefixHandler(other)),
        }
    }

    /// The Pratt loop: a prefix form, then infix operators while the
    /// lookahead binds tighter than `priority`.
    pub fn parse_prioritized_expr(&mut self, priority: PriorityLevel) -> (r: Result<
        Node,
        ParseError,
    >)
        requires
            old(self).wf(),
        ensures
            final(self).wf(),
            final(self).toks == old(self).toks,
            old(self).pos <= final(self).pos,
            match spec_parse_expr(old(self).rem(), spec_rank(priority)) {
                Ok((nv, rest)) => r matches Ok(n) && n@ == nv && final(self).rem() == rest && old(self).pos < final(self).pos,
                Err(e) => r matches Err(pe) && pe@ == e,
            },
        decreases old(self).rem().len(), 3int,
    {
        let ghost rank = spec_rank(priority);
        let mut left = match self.parse_prefix() {
            Ok(n) => n,
            Err(e) => {
                return Err(e);
            },
        };
        loop
            invariant
                self.wf(),
                self.toks == old(self).toks,
                old(self).pos < self.pos,
                rank == spec_rank(priority),
                spec_parse_expr(old(self).rem(), rank) == spec_parse_loop(left@, self.rem(), rank),
            decreases self.toks@.len() - self.pos,
        {
            let k = match self.peek_kind() {
                Some(k) => k,
                None => {
                    return Ok(left);
                },
            };
            let prio_k = get_tok_priority(&k);
            if priority.rank() >= prio_k.rank() {
                return Ok(left);
            }
            if kind_eq(&k, &TokenKind::SEMICOLON) {
                return Ok(left);
            }
            if !Self::has_infix_handler(&k) {
                return Ok(left);
            }
            left = match self.parse_binary(left) {
                Ok(n) => n,
                Err(e) => {
                    return Err(e);
                },
            };
        }
    }

    /// A statement: an expression at `LOWEST` terminated by `;`.
    pub fn parse_statement(&mut self) -> (r: Result<Node, ParseError>)
        requires
            old(self).wf(),
        ensures
            final(self).wf(),
            final(self).toks == old(self).toks,
            old(self).pos <= final(self).pos,
            match spec_parse_statement(old(self).rem()) {
                Ok((nv, rest)) => r matches Ok(n) && n@ == nv && final(self).rem() == rest && old(self).pos < final(self).pos,
                Err(e) => r matches Err(pe) && pe@ == e,
            },
    {
        let result = match self.parse_prioritized_expr(PriorityLevel::LOWEST) {
            Ok(n) => n,
            Err(e) => {
                return Err(e);
            },
        };
        match self.validate_tok_type(TokenKind::SEMICOLON) {
            Ok(_) => Ok(result),
            Err(e) => Err(e),
        }
    }

    /// A block: statements until the lookahead is `}` (left in place).
    pub fn parse_exprs_block(&mut self) -> (r: Result<Node, ParseError>)
        requires
            old(self).wf(),
        ensures
            final(self).wf(),
            final(self).toks == old(self).toks,
            old(self).pos <= final(self).pos,
            match spec_parse_block(old(self).rem()) {
                Ok((ns, rest)) => r matches Ok(n) && n@ == NodeV::BLOCK(ns) && final(self).rem()
                    == rest,
                Err(e) => r matches Err(pe) && pe@ == e,
            },
    {
        let mut expressions: Vec<Node> = Vec::new();
        proof {
            assert(nodes_view(expressions@) =~= Seq::<NodeV>::empty());
        }
        loop
            invariant
                self.wf(),
                self.toks == old(self).toks,
                old(self).pos <= self.pos,
                match spec_parse_block(self.rem()) {
                    Ok((ns, rest)) => spec_parse_block(old(self).rem()) == Ok::<
                        (Seq<NodeV>, Seq<TokenKindV>),
                        ParseErrorV,
                    >((nodes_view(expressions@) + ns, rest)),
                    Err(e) => spec_parse_block(old(self).rem()) == Err::<
                        (Seq<NodeV>, Seq<TokenKindV>),
                        ParseErrorV,
                    >(e),
                },
            decreases self.toks@.len() - self.pos,
        {
            let k = match self.peek_kind() {
                Some(k) => k,
                None => {
                    return Err(ParseError::UnexpectedEndOfInput);
                },
            };
            if kind_eq(&k, &TokenKind::CRBRACE) {
                proof {
                    assert(nodes_view(expressions@) + Seq::<NodeV>::empty() =~= nodes_view(
                        expressions@,
                    ));
                }
                return Ok(Node::BLOCK(expressions));
            }
            let ghost pre = *self;
            let stmt = match self.parse_statement() {
                Ok(n) => n,
                Err(e) => {
                    return Err(e);
                },
            };
            let ghost prev_nodes = expressions@;
            expressions.push(stmt);
            proof {
                lemma_nodes_view_push(prev_nodes, stmt);
                match spec_parse_statement(pre.rem()) {
                    Ok((nv, rest)) => {
                        match spec_parse_block(rest) {
                            Ok((ns2, rest2)) => {
                                assert(nodes_view(prev_nodes) + (seq![nv] + ns2) =~= nodes_view(
                                    expressions@,
                                ) + ns2);
                            },
                            _ => {},
                        }
                    },
                    _ => {},
                }
            }
        }
    }

    /// A function declaration; the `fn` keyword has already been consumed.
    pub fn parse_function(&mut self) -> (r: Result<Node, ParseError>)
        requires
            old(self).wf(),
        ensures
            final(self).wf(),
            final(self).toks == old(self).toks,
            old(self).pos <= final(self).pos,
            match spec_parse_function(old(self).rem()) {
                Ok((nv, rest)) => r matches Ok(n) && n@ == nv && final(self).rem() == rest,
                Err(e) => r matches Err(pe) && pe@ == e,
            },
    {
        let name_tok = match self.bump() {
            Some(t) => t,
            None => {
                return Err(ParseError::UnexpectedEndOfInput);
            },
        };
        let name = match name_tok.kind {
            TokenKind::IDENT(val) => val,
            other => {
                return Err(
                    ParseError::UnexpectedToken {
                        expected: TokenKind::IDENT(String::new()),
                        actual: other,
                    },
                );
            },
        };
        match self.validate_tok_type(TokenKind::LBRACE) {
            Ok(_) => {},
            Err(e) => {
                return Err(e);
            },
        }
        match self.validate_tok_type(TokenKind::RBRACE) {
            Ok(_) => {},
            Err(e) => {
                return Err(e);
            },
        }
        match self.validate_tok_type(TokenKind::CLBRACE) {
            Ok(_) => {},
            Err(e) => {
                return Err(e);
            },
        }
        proof {
            assert(self.rem() =~= old(self).rem().skip(4));
        }
        let fn_body = match self.parse_exprs_block() {
            Ok(n) => n,
            Err(e) => {
                return Err(e);
            },
        };
        match self.validate_tok_type(TokenKind::CRBRACE) {
            Ok(_) => {},
            Err(e) => {
                return Err(e);
            },
        }
        proof {
            assert(nodes_view(Seq::<Node>::empty()) =~= Seq::<NodeV>::empty());
        }
        Ok(
            Node::FUNCTION {
                name,
                arguments: Vec::new(),
                block: Box::new(fn_body),
                ret_type: TokenKind::RESERVED(ReservedIDents::VOID),
            },
        )
    }

    /// One top-level node: a function declaration or a statement; nothing at
    /// the end of the stream.
    pub fn parse_node(&mut self) -> (r: Result<Option<Node>, ParseError>)
        requires
            old(self).wf(),
        ensures
            final(self).wf(),
            final(self).toks == old(self).toks,
            old(self).pos <= final(self).pos,
            old(self).rem().len() == 0 ==> (r matches Ok(n) && n is None && *final(self) == *old(
                self,
            )),
            old(self).rem().len() > 0 ==> match spec_parse_node(old(self).rem()) {
                Ok((nv, rest)) => r matches Ok(n) && n matches Some(node) && node@ == nv && final(self).rem() == rest && old(self).pos < final(self).pos,
                Err(e) => r matches Err(pe) && pe@ == e,
            },
    {
        let k = match self.peek_kind() {
            Some(k) => k,
            None => {
                return Ok(None);
            },
        };
        let is_fn = match &k {
            TokenKind::RESERVED(ReservedIDents::FUNCTION) => true,
            _ => false,
        };
        if is_fn {
            self.bump();
            match self.parse_function() {
                Ok(n) => Ok(Some(n)),
                Err(e) => Err(e),
            }
        } else {
            match self.parse_statement() {
                Ok(n) => Ok(Some(n)),
                Err(e) => Err(e),
            }
        }
    }

    /// Parse a whole source text: tokenize it and collect every top-level
    /// node, or stop at the first diagnostic of either phase.
    pub fn decode_text(input: &str) -> (r: Result<Vec<Node>, Error>)
        ensures
            match spec_parse_source(input@) {
                Ok(ns) => r matches Ok(v) && nodes_view(v@) == ns,
                Err(e) => r matches Err(err) && err@ == e,
            },
    {
        let stream = match tokenize(input) {
            Ok(it) => it,
            Err(e) => {
                return Err(Error::Lex(e));
            },
        };
        proof {
            match spec_tokenize_from(input@, 0, 0) {
                Ok(ts) => {
                    assert(kinds_of_toks(stream.toks@) =~= kinds_of(ts));
                },
                _ => {},
            }
        }
        let mut parser = Parser::new(stream);
        proof {
            assert(parser.rem() =~= parser.kinds());
        }
        let mut nodes: Vec<Node> = Vec::new();
        proof {
            assert(nodes_view(nodes@) =~= Seq::<NodeV>::empty());
        }
        loop
            invariant
                parser.wf(),
                match spec_parse_program(parser.rem()) {
                    Ok(ns) => spec_parse_source(input@) == Ok::<Seq<NodeV>, ErrorV>(
                        nodes_view(nodes@) + ns,
                    ),
                    Err(e) => spec_parse_source(input@) == Err::<Seq<NodeV>, ErrorV>(
                        ErrorV::Parse(e),
                    ),
                },
            decreases parser.toks@.len() - parser.pos,
        {
            let ghost pre = parser;
            let next = match parser.parse_node() {
                Ok(n) => n,
                Err(e) => {
                    return Err(Error::Parse(e));
                },
            };
            match next {
                None => {
                    proof {
                        assert(nodes_view(nodes@) + Seq::<NodeV>::empty() =~= nodes_view(nodes@));
                    }
                    return Ok(nodes);
                },
                Some(n) => {
                    let ghost prev_nodes = nodes@;
                    nodes.push(n);
                    proof {
                        lemma_nodes_view_push(prev_nodes, n);
                        match spec_parse_node(pre.rem()) {
                            Ok((nv, rest)) => {
                                match spec_parse_program(rest) {
                                    Ok(ns2) => {
                                        assert(nodes_view(prev_nodes) + (seq![nv] + ns2)
                                            =~= nodes_view(nodes@) + ns2);
                                    },
                                    _ => {},
                                }
                            },
                            _ => {},
                        }
                    }
                },
            }
        }
    }
}

/// Parse a whole source text into its top-level nodes.
pub fn create_parse_stream(input: &str) -> (r: Result<Vec<Node>, Error>)
    ensures
        match spec_parse_source(input@) {
            Ok(ns) => r matches Ok(v) && nodes_view(v@) == ns,
            Err(e) => r matches Err(err) && err@ == e,
        },
{
    Parser::decode_text(input)
}

} // verus!
