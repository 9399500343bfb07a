//! The lexer: a mathematical description of tokenization over character
//! sequences, and the executable `advance_token` / `tokenize` proved against
//! it.

use vstd::prelude::*;
use crate::chars::{
    is_dec_digit, is_hex_digit, is_xid_continue, spec_is_id_start, spec_is_whitespace, dec_digit,
    hex_digit, is_id, is_id_continue, is_whitespace,
};
use crate::cursor::{first_or_nul, Cursor};
use crate::grammar::{
    digit_for_base, is_digit_for_base, keyword_kind, match_keyword, wf_kind, LexError,
    LiteralKind, LiteralKindV, NumberBase, Token, TokenKind, TokenKindV, TokenV,
};

verus! {

/// The input with its leading run of whitespace removed.
pub open spec fn skip_spaces(s: Seq<char>) -> Seq<char>
    decreases s.len(),
{
    if s.len() > 0 && spec_is_whitespace(s[0]) {
        skip_spaces(s.drop_first())
    } else {
        s
    }
}

/// Skipping whitespace never lengthens the input.
pub proof fn lemma_skip_spaces_len(s: Seq<char>)
    ensures
        skip_spaces(s).len() <= s.len(),
    decreases s.len(),
{
    if s.len() > 0 && spec_is_whitespace(s[0]) {
        lemma_skip_spaces_len(s.drop_first());
    }
}

/// The input with everything up to (but not including) the next newline
/// removed.
pub open spec fn skip_line(s: Seq<char>) -> Seq<char>
    decreases s.len(),
{
    if s.len() > 0 && s[0] != '\n' {
        skip_line(s.drop_first())
    } else {
        s
    }
}

/// Skipping a comment line never lengthens the input.
pub proof fn lemma_skip_line_len(s: Seq<char>)
    ensures
        skip_line(s).len() <= s.len(),
    decreases s.len(),
{
    if s.len() > 0 && s[0] != '\n' {
        lemma_skip_line_len(s.drop_first());
    }
}

/// Scan a run of decimal digits and separators: the collected digits with
/// underscores stripped, and the rest of the input.
pub open spec fn scan_dec(s: Seq<char>) -> (Seq<char>, Seq<char>)
    decreases s.len(),
{
    if s.len() == 0 {
        (Seq::<char>::empty(), s)
    } else if s[0] == '_' {
        scan_dec(s.drop_first())
    } else if is_dec_digit(s[0]) {
        let (d, r) = scan_dec(s.drop_first());
        (seq![s[0]] + d, r)
    } else {
        (Seq::<char>::empty(), s)
    }
}

/// Scan a run of hexadecimal digits and separators.
pub open spec fn scan_hex(s: Seq<char>) -> (Seq<char>, Seq<char>)
    decreases s.len(),
{
    if s.len() == 0 {
        (Seq::<char>::empty(), s)
    } else if s[0] == '_' {
        scan_hex(s.drop_first())
    } else if is_hex_digit(s[0]) {
        let (d, r) = scan_hex(s.drop_first());
        (seq![s[0]] + d, r)
    } else {
        (Seq::<char>::empty(), s)
    }
}

/// Scan a run of identifier-continue characters.
pub open spec fn scan_ident(s: Seq<char>) -> (Seq<char>, Seq<char>)
    decreases s.len(),
{
    if s.len() > 0 && is_xid_continue(s[0]) {
        let (d, r) = scan_ident(s.drop_first());
        (seq![s[0]] + d, r)
    } else {
        (Seq::<char>::empty(), s)
    }
}

/// The digit scans only ever drop consumed characters: what each leaves is a
/// suffix no longer than its input, and the collected decimal digits are all
/// decimal, the collected hex digits all hexadecimal.
pub proof fn lemma_scan_dec(s: Seq<char>)
    ensures
        scan_dec(s).1.len() <= s.len(),
        forall|i: int| 0 <= i < scan_dec(s).0.len() ==> is_dec_digit(#[trigger] scan_dec(s).0[i]),
    decreases s.len(),
{
    if s.len() == 0 {
    } else if s[0] == '_' || is_dec_digit(s[0]) {
        lemma_scan_dec(s.drop_first());
    }
}

/// Counterpart of `lemma_scan_dec` for the hexadecimal scan.
pub proof fn lemma_scan_hex(s: Seq<char>)
    ensures
        scan_hex(s).1.len() <= s.len(),
        forall|i: int| 0 <= i < scan_hex(s).0.len() ==> is_hex_digit(#[trigger] scan_hex(s).0[i]),
    decreases s.len(),
{
    if s.len() == 0 {
    } else if s[0] == '_' || is_hex_digit(s[0]) {
        lemma_scan_hex(s.drop_first());
    }
}

/// The identifier scan leaves a suffix no longer than its input.
pub proof fn lemma_scan_ident_len(s: Seq<char>)
    ensures
        scan_ident(s).1.len() <= s.len(),
    decreases s.len(),
{
    if s.len() > 0 && is_xid_continue(s[0]) {
        lemma_scan_ident_len(s.drop_first());
    }
}

/// Index of the first digit illegal for `base` in `d`, or `-1` if all are
/// legal.
pub open spec fn first_illegal(base: NumberBase, d: Seq<char>) -> int
    decreases d.len(),
{
    if d.len() == 0 {
        -1
    } else if !is_digit_for_base(base, d[0]) {
        0
    } else {
        let k = first_illegal(base, d.drop_first());
        if k < 0 {
            -1
        } else {
            k + 1
        }
    }
}

/// `first_illegal` finds exactly the least illegal position.
pub proof fn lemma_first_illegal(base: NumberBase, d: Seq<char>)
    ensures
        first_illegal(base, d) == -1 <==> forall|i: int|
            0 <= i < d.len() ==> is_digit_for_base(base, #[trigger] d[i]),
        first_illegal(base, d) >= 0 ==> {
            &&& first_illegal(base, d) < d.len()
            &&& !is_digit_for_base(base, d[first_illegal(base, d)])
            &&& forall|i: int|
                0 <= i < first_illegal(base, d) ==> is_digit_for_base(base, #[trigger] d[i])
        },
    decreases d.len(),
{
    if d.len() > 0 && is_digit_for_base(base, d[0]) {
        let dd = d.drop_first();
        lemma_first_illegal(base, dd);
        if first_illegal(base, d) == -1 {
            assert forall|i: int| 0 <= i < d.len() implies is_digit_for_base(
                base,
                #[trigger] d[i],
            ) by {
                if i >= 1 {
                    assert(d[i] == dd[i - 1]);
                }
            }
        } else {
            let k = first_illegal(base, d);
            assert(dd[k - 1] == d[k]);
            assert forall|i: int| 0 <= i < k implies is_digit_for_base(base, #[trigger] d[i]) by {
                if i >= 1 {
                    assert(d[i] == dd[i - 1]);
                }
            }
        }
        if forall|i: int| 0 <= i < d.len() ==> is_digit_for_base(base, #[trigger] d[i]) {
            assert forall|i: int| 0 <= i < dd.len() implies is_digit_for_base(
                base,
                #[trigger] dd[i],
            ) by {
                assert(dd[i] == d[i + 1]);
            }
            assert(first_illegal(base, dd) == -1);
        }
    }
}

/// Validate a scanned digit string: non-empty and legal for its base, else
/// the lexer's diagnostic. `r` is the input left after the scan, whose first
/// character names what stopped an empty scan.
pub open spec fn spec_check_digits(base: NumberBase, d: Seq<char>, r: Seq<char>) -> Result<
    TokenKindV,
    LexError,
> {
    if d.len() == 0 {
        Err(LexError::InvalidDigit(base, first_or_nul(r)))
    } else if first_illegal(base, d) >= 0 {
        Err(LexError::InvalidDigit(base, d[first_illegal(base, d)]))
    } else {
        Ok(TokenKindV::LITERAL(LiteralKindV::INT { base, val: d }))
    }
}

/// Scan a numeric literal whose first (already consumed) digit is `first`,
/// with `s` the input after it: the token kind and the rest of the input, or
/// the diagnostic.
pub open spec fn spec_scan_number(first: char, s: Seq<char>) -> Result<
    (TokenKindV, Seq<char>),
    LexError,
> {
    if first == '0' {
        if s.len() > 0 && s[0] == 'x' {
            let (d, r) = scan_hex(s.drop_first());
            match spec_check_digits(NumberBase::HEX, d, r) {
                Ok(k) => Ok((k, r)),
                Err(e) => Err(e),
            }
        } else if s.len() > 0 && s[0] == 'b' {
            let (d, r) = scan_dec(s.drop_first());
            match spec_check_digits(NumberBase::BINARY, d, r) {
                Ok(k) => Ok((k, r)),
                Err(e) => Err(e),
            }
        } else if s.len() > 0 && s[0] == 'o' {
            let (d, r) = scan_dec(s.drop_first());
            match spec_check_digits(NumberBase::OCTAL, d, r) {
                Ok(k) => Ok((k, r)),
                Err(e) => Err(e),
            }
        } else if s.len() > 0 && (is_dec_digit(s[0]) || s[0] == '_') {
            let (d, r) = scan_dec(s);
            match spec_check_digits(NumberBase::DECIMAL, d, r) {
                Ok(k) => Ok((k, r)),
                Err(e) => Err(e),
            }
        } else {
            Ok((
                TokenKindV::LITERAL(LiteralKindV::INT { base: NumberBase::DECIMAL, val: seq!['0'] }),
                s,
            ))
        }
    } else {
        let (d, r) = scan_dec(s);
        Ok((
            TokenKindV::LITERAL(
                LiteralKindV::INT { base: NumberBase::DECIMAL, val: seq![first] + d },
            ),
            r,
        ))
    }
}

/// One step of the lexer: the next token with the line counter and input
/// after it, the end of the input, or a diagnostic.
pub enum LexStep {
    Tok { kind: TokenKindV, line: int, rest: Seq<char> },
    End { line: int },
    Fail { err: LexError },
}

/// The lexer's dispatch on the first character of the input, after `line`
/// newlines have been seen; `col` is the (coarse, never advanced) column
/// counter carried into diagnostics and token positions.
pub open spec fn spec_advance(s: Seq<char>, line: int, col: int) -> LexStep
    decreases s.len(),
{
    if s.len() == 0 {
        LexStep::End { line }
    } else {
        let c = s[0];
        let t = s.drop_first();
        if spec_is_whitespace(c) {
            proof {
                lemma_skip_spaces_len(t);
            }
            spec_advance(skip_spaces(t), line, col)
        } else if c == '\n' {
            spec_advance(t, line + 1, col)
        } else if c == '/' && first_or_nul(t) == '/' {
            proof {
                lemma_skip_line_len(t);
            }
            spec_advance(skip_line(t), line, col)
        } else if c == '+' {
            if first_or_nul(t) == '+' {
                LexStep::Tok { kind: TokenKindV::INCREMENT, line, rest: t.drop_first() }
            } else {
                LexStep::Tok { kind: TokenKindV::PLUS, line, rest: t }
            }
        } else if c == '-' {
            if first_or_nul(t) == '-' {
                LexStep::Tok { kind: TokenKindV::DECREMENT, line, rest: t.drop_first() }
            } else if first_or_nul(t) == '>' {
                LexStep::Tok { kind: TokenKindV::ARROW, line, rest: t.drop_first() }
            } else {
                LexStep::Tok { kind: TokenKindV::MINUS, line, rest: t }
            }
        } else if c == '/' {
            LexStep::Tok { kind: TokenKindV::SLASH, line, rest: t }
        } else if c == '=' {
            if first_or_nul(t) == '=' {
                LexStep::Tok { kind: TokenKindV::DEQUAL, line, rest: t.drop_first() }
            } else {
                LexStep::Tok { kind: TokenKindV::EQUAL, line, rest: t }
            }
        } else if c == '.' {
            if first_or_nul(t) == '.' {
                LexStep::Tok { kind: TokenKindV::RANGE, line, rest: t.drop_first() }
            } else {
                LexStep::Tok { kind: TokenKindV::DOT, line, rest: t }
            }
        } else if c == '>' {
            LexStep::Tok { kind: TokenKindV::MT, line, rest: t }
        } else if c == '<' {
            LexStep::Tok { kind: TokenKindV::LT, line, rest: t }
        } else if c == '*' {
            LexStep::Tok { kind: TokenKindV::STAR, line, rest: t }
        } else if c == ':' {
            LexStep::Tok { kind: TokenKindV::COLON, line, rest: t }
        } else if c == ';' {
            LexStep::Tok { kind: TokenKindV::SEMICOLON, line, rest: t }
        } else if c == '(' {
            LexStep::Tok { kind: TokenKindV::LBRACE, line, rest: t }
        } else if c == ')' {
            LexStep::Tok { kind: TokenKindV::RBRACE, line, rest: t }
        } else if c == '{' {
            LexStep::Tok { kind: TokenKindV::CLBRACE, line, rest: t }
        } else if c == '}' {
            LexStep::Tok { kind: TokenKindV::CRBRACE, line, rest: t }
        } else if c == '"' {
            LexStep::Tok { kind: TokenKindV::DQUOTE, line, rest: t }
        } else if c == '\'' {
            LexStep::Tok { kind: TokenKindV::QUOTE, line, rest: t }
        } else if c == '&' {
            LexStep::Tok { kind: TokenKindV::AMPERSAND, line, rest: t }
        } else if is_dec_digit(c) {
            match spec_scan_number(c, t) {
                Ok((kind, rest)) => LexStep::Tok { kind, line, rest },
                Err(e) => LexStep::Fail { err: e },
            }
        } else if spec_is_id_start(c) {
            let (d, r) = scan_ident(t);
            LexStep::Tok { kind: keyword_kind(seq![c] + d), line, rest: r }
        } else {
            LexStep::Fail { err: LexError::UndefinedCharacter(line as usize, col as usize, c) }
        }
    }
}

/// A produced token always leaves a strictly shorter input behind, and is
/// never the `EOF` sentinel.
pub proof fn lemma_advance_progress(s: Seq<char>, line: int, col: int)
    ensures
        spec_advance(s, line, col) matches LexStep::Tok { rest, kind, .. } ==> rest.len() < s.len()
            && kind != TokenKindV::EOF,
    decreases s.len(),
{
    if s.len() == 0 {
    } else {
        let c = s[0];
        let t = s.drop_first();
        if spec_is_whitespace(c) {
            lemma_skip_spaces_len(t);
            lemma_advance_progress(skip_spaces(t), line, col);
        } else if c == '\n' {
            lemma_advance_progress(t, line + 1, col);
        } else if c == '/' && first_or_nul(t) == '/' {
            lemma_skip_line_len(t);
            lemma_advance_progress(skip_line(t), line, col);
        } else if is_dec_digit(c) {
            if c == '0' {
                if t.len() > 0 && (t[0] == 'x') {
                    lemma_scan_hex(t.drop_first());
                } else if t.len() > 0 && (t[0] == 'b' || t[0] == 'o') {
                    lemma_scan_dec(t.drop_first());
                } else {
                    lemma_scan_dec(t);
                }
            } else {
                lemma_scan_dec(t);
            }
        } else if spec_is_id_start(c) {
            lemma_scan_ident_len(t);
        }
    }
}

/// Tokenize the whole input from a given line counter: the token sequence up
/// to (and excluding) the end of the input, or the first diagnostic.
pub open spec fn spec_tokenize_from(s: Seq<char>, line: int, col: int) -> Result<
    Seq<TokenV>,
    LexError,
>
    decreases s.len(),
{
    match spec_advance(s, line, col) {
        LexStep::End { .. } => Ok(Seq::<TokenV>::empty()),
        LexStep::Fail { err } => Err(err),
        LexStep::Tok { kind, line: l2, rest } => {
            proof {
                lemma_advance_progress(s, line, col);
            }
            match spec_tokenize_from(rest, l2, col) {
                Ok(ts) => Ok(seq![TokenV { kind, pos: (l2, col) }] + ts),
                Err(e) => Err(e),
            }
        },
    }
}

/// Any token the lexer produces in one step is well formed: an integer
/// literal carries a non-empty digit string, free of underscores, whose
/// digits are all legal for its base, and an identifier never equals a
/// reserved word. The `EOF` sentinel is never produced as a token.
pub proof fn lemma_advance_wf(s: Seq<char>, line: int, col: int)
    ensures
        spec_advance(s, line, col) matches LexStep::Tok { kind, .. } ==> wf_kind(kind) && kind
            != TokenKindV::EOF,
    decreases s.len(),
{
    if s.len() == 0 {
    } else {
        let c = s[0];
        let t = s.drop_first();
        if spec_is_whitespace(c) {
            lemma_skip_spaces_len(t);
            lemma_advance_wf(skip_spaces(t), line, col);
        } else if c == '\n' {
            lemma_advance_wf(t, line + 1, col);
        } else if c == '/' && first_or_nul(t) == '/' {
            lemma_skip_line_len(t);
            lemma_advance_wf(skip_line(t), line, col);
        } else if is_dec_digit(c) {
            match spec_scan_number(c, t) {
                Ok((kind, _)) => {
                    if c == '0' && t.len() > 0 && t[0] == 'x' {
                        lemma_first_illegal(NumberBase::HEX, scan_hex(t.drop_first()).0);
                    } else if c == '0' && t.len() > 0 && t[0] == 'b' {
                        lemma_first_illegal(NumberBase::BINARY, scan_dec(t.drop_first()).0);
                    } else if c == '0' && t.len() > 0 && t[0] == 'o' {
                        lemma_first_illegal(NumberBase::OCTAL, scan_dec(t.drop_first()).0);
                    } else if c == '0' && t.len() > 0 && (is_dec_digit(t[0]) || t[0] == '_') {
                        lemma_first_illegal(NumberBase::DECIMAL, scan_dec(t).0);
                    } else if c == '0' {
                        assert(is_digit_for_base(NumberBase::DECIMAL, seq!['0'][0]));
                    } else {
                        let d = scan_dec(t).0;
                        lemma_scan_dec(t);
                        let v = seq![c] + d;
                        assert forall|i: int| 0 <= i < v.len() implies is_digit_for_base(
                            NumberBase::DECIMAL,
                            #[trigger] v[i],
                        ) by {
                            if i > 0 {
                                assert(v[i] == d[i - 1]);
                            }
                        }
                    }
                },
                Err(_) => {},
            }
        }
    }
}

/// Tokenizer totality and well-formedness: for every input, tokenization
/// yields a finite sequence of well-formed tokens or stops at a diagnostic,
/// and the `EOF` sentinel is never among the tokens. In particular every
/// integer literal token's digit string is non-empty, has no underscore and
/// only digits legal for its base, and no identifier token carries a
/// reserved word as its name.
pub proof fn lemma_tokenize_wf(s: Seq<char>, line: int, col: int)
    ensures
        spec_tokenize_from(s, line, col) matches Ok(ts) ==> forall|i: int|
            0 <= i < ts.len() ==> wf_kind(#[trigger] ts[i].kind) && ts[i].kind != TokenKindV::EOF,
    decreases s.len(),
{
    match spec_advance(s, line, col) {
        LexStep::Tok { kind, line: l2, rest } => {
            lemma_advance_progress(s, line, col);
            lemma_advance_wf(s, line, col);
            lemma_tokenize_wf(rest, l2, col);
            match spec_tokenize_from(rest, l2, col) {
                Ok(ts2) => {
                    let ts = seq![TokenV { kind, pos: (l2, col) }] + ts2;
                    assert forall|i: int| 0 <= i < ts.len() implies wf_kind(#[trigger] ts[i].kind)
                        && ts[i].kind != TokenKindV::EOF by {
                        if i > 0 {
                            assert(ts[i] == ts2[i - 1]);
                        }
                    }
                },
                _ => {},
            }
        },
        _ => {},
    }
}

/// What every scanning helper leaves untouched: the text and the position
/// counters, while the read position only moves forward.
pub open spec fn scanned(a: Cursor, b: Cursor) -> bool {
    &&& b.wf()
    &&& b.text == a.text
    &&& b.line == a.line
    &&& b.col == a.col
    &&& a.pos <= b.pos
}

/// Relies on String::push: appends the given character at the end.
#[verifier::external_body]
fn push_char(s: &mut String, c: char)
    ensures
        final(s)@ == old(s)@.push(c),
{
    s.push(c);
}

impl Cursor {
    /// Consume the leading run of whitespace.
    fn skip_whitespace(&mut self)
        requires
            old(self).wf(),
        ensures
            scanned(*old(self), *final(self)),
            final(self).remaining() == skip_spaces(old(self).remaining()),
    {
        loop
            invariant
                self.wf(),
                scanned(*old(self), *self),
                skip_spaces(old(self).remaining()) == skip_spaces(self.remaining()),
            ensures
                scanned(*old(self), *self),
                self.remaining() == skip_spaces(old(self).remaining()),
            decreases self.remaining().len(),
        {
            let c = self.first();
            if !is_whitespace(c) {
                proof {
                    assert(skip_spaces(self.remaining()) == self.remaining());
                }
                break;
            }
            self.bump();
        }
    }

    /// Consume up to (but not including) the next newline.
    fn skip_comment_line(&mut self)
        requires
            old(self).wf(),
        ensures
            scanned(*old(self), *final(self)),
            final(self).remaining() == skip_line(old(self).remaining()),
    {
        loop
            invariant
                self.wf(),
                scanned(*old(self), *self),
                skip_line(old(self).remaining()) == skip_line(self.remaining()),
            ensures
                scanned(*old(self), *self),
                self.remaining() == skip_line(old(self).remaining()),
            decreases self.remaining().len(),
        {
            if self.is_eof() {
                break;
            }
            let c = self.first();
            if c == '\n' {
                break;
            }
            self.bump();
        }
    }

    /// Scan a decimal digit string, stripping underscores.
    fn parse_num_to_str(&mut self) -> (res: String)
        requires
            old(self).wf(),
        ensures
            scanned(*old(self), *final(self)),
            res@ == scan_dec(old(self).remaining()).0,
            final(self).remaining() == scan_dec(old(self).remaining()).1,
    {
        let mut result = String::new();
        proof {
            assert(Seq::<char>::empty() + scan_dec(self.remaining()).0 =~= scan_dec(
                self.remaining(),
            ).0);
        }
        loop
            invariant
                self.wf(),
                scanned(*old(self), *self),
                scan_dec(old(self).remaining()).0 == result@ + scan_dec(self.remaining()).0,
                scan_dec(old(self).remaining()).1 == scan_dec(self.remaining()).1,
            ensures
                scanned(*old(self), *self),
                result@ == scan_dec(old(self).remaining()).0,
                self.remaining() == scan_dec(old(self).remaining()).1,
            decreases self.remaining().len(),
        {
            let chr = self.first();
            if chr == '_' {
                self.bump();
            } else if dec_digit(chr) {
                self.bump();
                push_char(&mut result, chr);
                proof {
                    assert(result@ + scan_dec(self.remaining()).0 =~= result@.drop_last() + (seq![
                        chr,
                    ] + scan_dec(self.remaining()).0));
                }
            } else {
                proof {
                    assert(scan_dec(self.remaining()).0 =~= Seq::<char>::empty());
                    assert(result@ + Seq::<char>::empty() =~= result@);
                }
                break;
            }
        }
        result
    }

    /// Scan a hexadecimal digit string, stripping underscores.
    fn parse_hex_num_to_str(&mut self) -> (res: String)
        requires
            old(self).wf(),
        ensures
            scanned(*old(self), *final(self)),
            res@ == scan_hex(old(self).remaining()).0,
            final(self).remaining() == scan_hex(old(self).remaining()).1,
    {
        let mut result = String::new();
        proof {
            assert(Seq::<char>::empty() + scan_hex(self.remaining()).0 =~= scan_hex(
                self.remaining(),
            ).0);
        }
        loop
            invariant
                self.wf(),
                scanned(*old(self), *self),
                scan_hex(old(self).remaining()).0 == result@ + scan_hex(self.remaining()).0,
                scan_hex(old(self).remaining()).1 == scan_hex(self.remaining()).1,
            ensures
                scanned(*old(self), *self),
                result@ == scan_hex(old(self).remaining()).0,
                self.remaining() == scan_hex(old(self).remaining()).1,
            decreases self.remaining().len(),
        {
            let chr = self.first();
            if chr == '_' {
                self.bump();
            } else if hex_digit(chr) {
                self.bump();
                push_char(&mut result, chr);
                proof {
                    assert(result@ + scan_hex(self.remaining()).0 =~= result@.drop_last() + (seq![
                        chr,
                    ] + scan_hex(self.remaining()).0));
                }
            } else {
                proof {
                    assert(scan_hex(self.remaining()).0 =~= Seq::<char>::empty());
                    assert(result@ + Seq::<char>::empty() =~= result@);
                }
                break;
            }
        }
        result
    }

    /// Scan the rest of an identifier whose first character is `symbol`, and
    /// classify the completed name against the reserved-word table.
    fn parse_id(&mut self, symbol: char) -> (k: TokenKind)
        requires
            old(self).wf(),
        ensures
            scanned(*old(self), *final(self)),
            k@ == keyword_kind(seq![symbol] + scan_ident(old(self).remaining()).0),
            final(self).remaining() == scan_ident(old(self).remaining()).1,
    {
        let mut result = String::new();
        push_char(&mut result, symbol);
        proof {
            assert(result@ =~= seq![symbol]);
            assert(seq![symbol] + scan_ident(self.remaining()).0 =~= result@ + scan_ident(
                self.remaining(),
            ).0);
        }
        loop
            invariant
                self.wf(),
                scanned(*old(self), *self),
                seq![symbol] + scan_ident(old(self).remaining()).0 == result@ + scan_ident(
                    self.remaining(),
                ).0,
                scan_ident(old(self).remaining()).1 == scan_ident(self.remaining()).1,
            ensures
                scanned(*old(self), *self),
                result@ == seq![symbol] + scan_ident(old(self).remaining()).0,
                self.remaining() == scan_ident(old(self).remaining()).1,
            decreases self.remaining().len(),
        {
            if self.is_eof() {
                proof {
                    assert(result@ + Seq::<char>::empty() =~= result@);
                }
                break;
            }
            let chr = self.first();
            if !is_id_continue(chr) {
                proof {
                    assert(scan_ident(self.remaining()).0 =~= Seq::<char>::empty());
                    assert(result@ + Seq::<char>::empty() =~= result@);
                }
                break;
            }
            self.bump();
            push_char(&mut result, chr);
            proof {
                assert(result@ + scan_ident(self.remaining()).0 =~= result@.drop_last() + (seq![
                    chr,
                ] + scan_ident(self.remaining()).0));
            }
        }
        match_keyword(result)
    }

    /// Validate a scanned digit string against its base.
    fn check_digits(&self, base: NumberBase, val: String) -> (r: Result<TokenKind, LexError>)
        requires
            self.wf(),
        ensures
            match spec_check_digits(base, val@, self.remaining()) {
                Ok(k) => r matches Ok(kind) && kind@ == k,
                Err(e) => r == Err::<TokenKind, LexError>(e),
            },
    {
        let n = val.as_str().unicode_len();
        if n == 0 {
            return Err(LexError::InvalidDigit(base, self.first()));
        }
        let mut i: usize = 0;
        while i < n
            invariant
                i <= n,
                n == val@.len(),
                forall|j: int| 0 <= j < i ==> is_digit_for_base(base, #[trigger] val@[j]),
            decreases n - i,
        {
            let c = val.as_str().get_char(i);
            if !digit_for_base(base, c) {
                proof {
                    lemma_first_illegal(base, val@);
                }
                return Err(LexError::InvalidDigit(base, c));
            }
            i = i + 1;
        }
        proof {
            lemma_first_illegal(base, val@);
        }
        Ok(TokenKind::LITERAL(LiteralKind::INT { base, val }))
    }

    /// Scan a numeric literal whose first (already consumed) digit is
    /// `first`.
    fn parse_num(&mut self, first: char) -> (r: Result<TokenKind, LexError>)
        requires
            old(self).wf(),
            is_dec_digit(first),
        ensures
            scanned(*old(self), *final(self)),
            match spec_scan_number(first, old(self).remaining()) {
                Ok((k, rest)) => r matches Ok(kind) && kind@ == k && final(self).remaining()
                    == rest,
                Err(e) => r == Err::<TokenKind, LexError>(e),
            },
    {
        if first == '0' {
            let p = self.first();
            if p == 'x' {
                self.bump();
                let d = self.parse_hex_num_to_str();
                self.check_digits(NumberBase::HEX, d)
            } else if p == 'b' {
                self.bump();
                let d = self.parse_num_to_str();
                self.check_digits(NumberBase::BINARY, d)
            } else if p == 'o' {
                self.bump();
                let d = self.parse_num_to_str();
                self.check_digits(NumberBase::OCTAL, d)
            } else if dec_digit(p) || p == '_' {
                let d = self.parse_num_to_str();
                self.check_digits(NumberBase::DECIMAL, d)
            } else {
                proof {
                    reveal_strlit("0");
                    assert("0"@ =~= seq!['0']);
                }
                Ok(
                    TokenKind::LITERAL(
                        LiteralKind::INT { base: NumberBase::DECIMAL, val: String::from_str("0") },
                    ),
                )
            }
        } else {
            let mut result = String::new();
            push_char(&mut result, first);
            let rest = self.parse_num_to_str();
            result.append(rest.as_str());
            proof {
                assert(result@ =~= seq![first] + scan_dec(old(self).remaining()).0);
            }
            Ok(TokenKind::LITERAL(LiteralKind::INT { base: NumberBase::DECIMAL, val: result }))
        }
    }

    /// Produce the next token, or the diagnostic that stops the lexer. At
    /// the end of the input the `EOF` sentinel token is returned.
    pub fn advance_token(&mut self) -> (r: Result<Token, LexError>)
        requires
            old(self).wf(),
            old(self).line <= old(self).pos,
        ensures
            final(self).wf(),
            final(self).line <= final(self).pos,
            final(self).text == old(self).text,
            final(self).col == old(self).col,
            match spec_advance(
                old(self).remaining(),
                old(self).line as int,
                old(self).col as int,
            ) {
                LexStep::Tok { kind, line, rest } => {
                    &&& r matches Ok(t) && t@.kind == kind && t@.pos == (
                        line,
                        old(self).col as int,
                    )
                    &&& final(self).remaining() == rest
                    &&& final(self).line == line
                },
                LexStep::End { line } => {
                    &&& r matches Ok(t) && t@.kind == TokenKindV::EOF && t@.pos == (
                        line,
                        old(self).col as int,
                    )
                    &&& final(self).remaining().len() == 0
                    &&& final(self).line == line
                },
                LexStep::Fail { err } => r == Err::<Token, LexError>(err),
            },
        decreases old(self).remaining().len(),
    {
        let c_opt = self.bump();
        let c = match c_opt {
            Some(ch) => ch,
            None => {
                return Ok(Token { kind: TokenKind::EOF, pos: (self.line, self.col) });
            },
        };
        if is_whitespace(c) {
            self.skip_whitespace();
            proof {
                lemma_skip_spaces_len(old(self).remaining().drop_first());
            }
            return self.advance_token();
        }
        if c == '\n' {
            self.line = self.line + 1;
            return self.advance_token();
        }
        if c == '/' && self.first() == '/' {
            self.skip_comment_line();
            proof {
                lemma_skip_line_len(old(self).remaining().drop_first());
            }
            return self.advance_token();
        }
        let kind_res: Result<TokenKind, LexError> = if c == '+' {
            if self.first() == '+' {
                self.bump();
                Ok(TokenKind::INCREMENT)
            } else {
                Ok(TokenKind::PLUS)
            }
        } else if c == '-' {
            let p = self.first();
            if p == '-' {
                self.bump();
                Ok(TokenKind::DECREMENT)
            } else if p == '>' {
                self.bump();
                Ok(TokenKind::ARROW)
            } else {
                Ok(TokenKind::MINUS)
            }
        } else if c == '/' {
            Ok(TokenKind::SLASH)
        } else if c == '=' {
            if self.first() == '=' {
                self.bump();
                Ok(TokenKind::DEQUAL)
            } else {
                Ok(TokenKind::EQUAL)
            }
        } else if c == '.' {
            if self.first() == '.' {
                self.bump();
                Ok(TokenKind::RANGE)
            } else {
                Ok(TokenKind::DOT)
            }
        } else if c == '>' {
            Ok(TokenKind::MT)
        } else if c == '<' {
            Ok(TokenKind::LT)
        } else if c == '*' {
            Ok(TokenKind::STAR)
        } else if c == ':' {
            Ok(TokenKind::COLON)
        } else if c == ';' {
            Ok(TokenKind::SEMICOLON)
        } else if c == '(' {
            Ok(TokenKind::LBRACE)
        } else if c == ')' {
            Ok(TokenKind::RBRACE)
        } else if c == '{' {
            Ok(TokenKind::CLBRACE)
        } else if c == '}' {
            Ok(TokenKind::CRBRACE)
        } else if c == '"' {
            Ok(TokenKind::DQUOTE)
        } else if c == '\'' {
            Ok(TokenKind::QUOTE)
        } else if c == '&' {
            Ok(TokenKind::AMPERSAND)
        } else if dec_digit(c) {
            self.parse_num(c)
        } else if is_id(c) {
            Ok(self.parse_id(c))
        } else {
            Err(LexError::UndefinedCharacter(self.line, self.col, c))
        };
        match kind_res {
            Ok(kind) => Ok(Token { kind, pos: (self.line, self.col) }),
            Err(e) => Err(e),
        }
    }
}

/// The token stream a source string lexes to, with a read position for the
/// parser's one-token lookahead.
pub struct TokenIterator {
    pub toks: Vec<Token>,
    pub pos: usize,
}

impl TokenIterator {
    /// Wrap a token vector as a stream positioned at its start.
    pub fn new(tokens: Vec<Token>) -> (it: TokenIterator)
        ensures
            it.toks == tokens,
            it.pos == 0,
    {
        TokenIterator { toks: tokens, pos: 0 }
    }
}

/// The mathematical images of a token vector.
pub open spec fn views_of(toks: Seq<Token>) -> Seq<TokenV> {
    toks.map_values(|t: Token| t@)
}

/// Lex the whole input: every token before the end of the input in order
/// (the `EOF` sentinel is never yielded), or the first diagnostic.
pub fn tokenize(input: &str) -> (r: Result<TokenIterator, LexError>)
    ensures
        match spec_tokenize_from(input@, 0, 0) {
            Ok(ts) => r matches Ok(it) && views_of(it.toks@) == ts && it.pos == 0,
            Err(e) => r == Err::<TokenIterator, LexError>(e),
        },
{
    let mut cursor = Cursor::new(input);
    let mut toks: Vec<Token> = Vec::new();
    proof {
        assert(views_of(toks@) =~= Seq::<TokenV>::empty());
        match spec_tokenize_from(input@, 0, 0) {
            Ok(ts) => {
                assert(views_of(toks@) + ts =~= ts);
            },
            _ => {},
        }
    }
    loop
        invariant
            cursor.wf(),
            cursor.line <= cursor.pos,
            cursor.col == 0,
            match spec_tokenize_from(cursor.remaining(), cursor.line as int, 0) {
                Ok(ts) => spec_tokenize_from(input@, 0, 0) == Ok::<Seq<TokenV>, LexError>(
                    views_of(toks@) + ts,
                ),
                Err(e) => spec_tokenize_from(input@, 0, 0) == Err::<Seq<TokenV>, LexError>(e),
            },
        decreases cursor.remaining().len(),
    {
        let ghost pre_rem = cursor.remaining();
        let ghost pre_line = cursor.line as int;
        proof {
            lemma_advance_progress(pre_rem, pre_line, 0);
        }
        match cursor.advance_token() {
            Err(e) => {
                return Err(e);
            },
            Ok(t) => {
                let is_end = match &t.kind {
                    TokenKind::EOF => true,
                    _ => false,
                };
                if is_end {
                    proof {
                        assert(views_of(toks@) + Seq::<TokenV>::empty() =~= views_of(toks@));
                    }
                    return Ok(TokenIterator::new(toks));
                } else {
                    let ghost prev_toks = toks@;
                    toks.push(t);
                    proof {
                        assert(views_of(toks@) =~= views_of(prev_toks).push(t@));
                        match spec_advance(pre_rem, pre_line, 0) {
                            LexStep::Tok { kind, line, rest } => {
                                match spec_tokenize_from(rest, line, 0) {
                                    Ok(ts2) => {
                                        assert(views_of(prev_toks) + (seq![
                                            TokenV { kind, pos: (line, 0) },
                                        ] + ts2) =~= views_of(prev_toks).push(t@) + ts2);
                                    },
                                    _ => {},
                                }
                            },
                            _ => {},
                        }
                    }
                }
            },
        }
    }
}

} // verus!
