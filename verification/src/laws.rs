//! Laws of the parser: every successful parse consumes a non-empty prefix of
//! its input, precedence shapes the tree (higher-precedence operators group
//! deeper, equal precedence groups to the left), and wrapping an expression
//! in round braces does not change its tree.

use vstd::prelude::*;
use crate::ast::NodeV;
use crate::grammar::{LiteralKindV, ParseErrorV, ReservedIDents, TokenKindV};
use crate::parser::{
    spec_is_infix, spec_parse_binary, spec_parse_expr, spec_parse_let, spec_parse_loop,
    spec_parse_prefix, spec_parse_unary,
};
use crate::priority::{spec_prio, spec_rank, PriorityLevel};

verus! {

/// Skipping twice is skipping once by the sum.
proof fn lemma_skip_skip(s: Seq<TokenKindV>, i: int, j: int)
    requires
        0 <= i,
        0 <= j,
        i + j <= s.len(),
    ensures
        s.skip(i).skip(j) == s.skip(i + j),
{
    assert(s.skip(i).skip(j) =~= s.skip(i + j));
}

/// What remains after one infix step is a strictly shorter suffix of the
/// input.
pub proof fn lemma_binary_consumes(left: NodeV, ts: Seq<TokenKindV>)
    ensures
        spec_parse_binary(left, ts) matches Ok((n, r)) ==> r.len() < ts.len() && r == ts.skip(
            ts.len() - r.len(),
        ),
    decreases ts.len(), 0int,
{
    if ts.len() > 0 {
        lemma_expr_consumes(ts.drop_first(), spec_prio(ts[0]));
        match spec_parse_expr(ts.drop_first(), spec_prio(ts[0])) {
            Ok((_, r)) => {
                assert(ts.drop_first() == ts.skip(1));
                lemma_skip_skip(ts, 1, ts.len() - 1 - r.len());
            },
            _ => {},
        }
    }
}

/// What the Pratt loop leaves is a suffix of its input, no longer than it.
pub proof fn lemma_loop_consumes(left: NodeV, ts: Seq<TokenKindV>, prio: int)
    ensures
        spec_parse_loop(left, ts, prio) matches Ok((n, r)) ==> r.len() <= ts.len() && r == ts.skip(
            ts.len() - r.len(),
        ),
    decreases ts.len(), 1int,
{
    if ts.len() == 0 {
        assert(ts.skip(0) =~= ts);
    } else if prio >= spec_prio(ts[0]) || ts[0] == TokenKindV::SEMICOLON || !spec_is_infix(
        ts[0],
    ) {
        assert(ts.skip(0) =~= ts);
    } else {
        lemma_binary_consumes(left, ts);
        match spec_parse_binary(left, ts) {
            Ok((node, r)) => {
                if r.len() < ts.len() {
                    lemma_loop_consumes(node, r, prio);
                    match spec_parse_loop(node, r, prio) {
                        Ok((_, r2)) => {
                            lemma_skip_skip(ts, ts.len() - r.len(), r.len() - r2.len());
                        },
                        _ => {},
                    }
                }
            },
            _ => {},
        }
    }
}

/// What a prefix form leaves is a strictly shorter suffix of the input.
pub proof fn lemma_prefix_consumes(ts: Seq<TokenKindV>)
    ensures
        spec_parse_prefix(ts) matches Ok((n, r)) ==> r.len() < ts.len() && r == ts.skip(
            ts.len() - r.len(),
        ),
    decreases ts.len(), 2int,
{
    if ts.len() > 0 {
        let k = ts[0];
        let t = ts.drop_first();
        assert(t == ts.skip(1));
        match k {
            TokenKindV::LITERAL(_) => {
                assert(t == ts.skip(ts.len() - t.len()));
            },
            TokenKindV::LBRACE => {
                lemma_expr_consumes(t, 0);
                match spec_parse_expr(t, 0) {
                    Ok((_, r)) => {
                        if r.len() > 0 && r[0] == TokenKindV::RBRACE {
                            lemma_skip_skip(ts, 1, t.len() - r.len());
                            assert(r.drop_first() == r.skip(1));
                            lemma_skip_skip(ts, ts.len() - r.len(), 1);
                        }
                    },
                    _ => {},
                }
            },
            TokenKindV::RESERVED(ReservedIDents::LET) => {
                lemma_let_consumes(t);
                match spec_parse_let(t) {
                    Ok((_, r)) => {
                        lemma_skip_skip(ts, 1, t.len() - r.len());
                    },
                    _ => {},
                }
            },
            TokenKindV::PLUS => {
                lemma_unary_step(ts);
            },
            TokenKindV::MINUS => {
                lemma_unary_step(ts);
            },
            TokenKindV::INCREMENT => {
                lemma_unary_step(ts);
            },
            TokenKindV::DECREMENT => {
                lemma_unary_step(ts);
            },
            _ => {},
        }
    }
}

/// Helper for the unary arms of `lemma_prefix_consumes`.
proof fn lemma_unary_step(ts: Seq<TokenKindV>)
    requires
        ts.len() > 0,
    ensures
        spec_parse_unary(ts[0], ts.drop_first()) matches Ok((n, r)) ==> r.len() < ts.len() && r
            == ts.skip(ts.len() - r.len()),
    decreases ts.len(), 1int,
{
    let t = ts.drop_first();
    assert(t == ts.skip(1));
    lemma_expr_consumes(t, spec_rank(PriorityLevel::PREFIX));
    match spec_parse_expr(t, spec_rank(PriorityLevel::PREFIX)) {
        Ok((_, r)) => {
            lemma_skip_skip(ts, 1, t.len() - r.len());
        },
        _ => {},
    }
}

/// What a `let` binding leaves is a suffix of the input after `let`.
pub proof fn lemma_let_consumes(ts: Seq<TokenKindV>)
    ensures
        spec_parse_let(ts) matches Ok((n, r)) ==> r.len() < ts.len() && r == ts.skip(
            ts.len() - r.len(),
        ),
    decreases ts.len(), 0int,
{
    if ts.len() >= 2 {
        match ts[0] {
            TokenKindV::IDENT(_) => {
                lemma_expr_consumes(ts.skip(2), 0);
                match spec_parse_expr(ts.skip(2), 0) {
                    Ok((_, r)) => {
                        lemma_skip_skip(ts, 2, ts.len() - 2 - r.len());
                    },
                    _ => {},
                }
            },
            _ => {},
        }
    }
}

/// A successful expression parse consumes at least one token, and what it
/// leaves is a suffix of the input.
pub proof fn lemma_expr_consumes(ts: Seq<TokenKindV>, prio: int)
    ensures
        spec_parse_expr(ts, prio) matches Ok((n, r)) ==> r.len() < ts.len() && r == ts.skip(
            ts.len() - r.len(),
        ),
    decreases ts.len(), 3int,
{
    lemma_prefix_consumes(ts);
    match spec_parse_prefix(ts) {
        Ok((left, r)) => {
            if r.len() < ts.len() {
                lemma_loop_consumes(left, r, prio);
                match spec_parse_loop(left, r, prio) {
                    Ok((_, r2)) => {
                        lemma_skip_skip(ts, ts.len() - r.len(), r.len() - r2.len());
                    },
                    _ => {},
                }
            }
        },
        _ => {},
    }
}

/// Top-level binding strength of a node: a `BINARY` node binds as its
/// operator; every other node binds tighter than any operator.
pub open spec fn top_prio(n: NodeV) -> int {
    match n {
        NodeV::BINARY { op, .. } => spec_prio(op),
        _ => 7,
    }
}

/// A precedence-correct expression tree over integer atoms: below every
/// binary operator the left subtree binds at least as tight (so operators of
/// equal precedence group to the left) and the right subtree binds strictly
/// tighter (so higher-precedence operators sit deeper), and every unary
/// operand binds tighter than the `PREFIX` level.
pub open spec fn prec_wf(n: NodeV) -> bool
    decreases n,
{
    match n {
        NodeV::INTEGER(_) => true,
        NodeV::BINARY { lhs, rhs, op } => {
            &&& spec_is_infix(op)
            &&& prec_wf(*lhs)
            &&& prec_wf(*rhs)
            &&& top_prio(*lhs) >= spec_prio(op)
            &&& top_prio(*rhs) > spec_prio(op)
        },
        NodeV::UNARY { val, op: _ } => prec_wf(*val) && top_prio(*val) > spec_rank(
            PriorityLevel::PREFIX,
        ),
        _ => false,
    }
}

/// A token of a plain arithmetic input: an integer literal or an operator,
/// with no braces and no bindings.
pub open spec fn plain_tok(k: TokenKindV) -> bool {
    ||| k matches TokenKindV::LITERAL(LiteralKindV::INT { .. })
    ||| spec_is_infix(k)
    ||| k == TokenKindV::INCREMENT
    ||| k == TokenKindV::DECREMENT
}

/// An input made of integer literals and operators only.
pub open spec fn plain_input(ts: Seq<TokenKindV>) -> bool {
    forall|i: int| 0 <= i < ts.len() ==> plain_tok(#[trigger] ts[i])
}

/// A suffix of a plain input is plain.
proof fn lemma_plain_skip(ts: Seq<TokenKindV>, j: int)
    requires
        plain_input(ts),
        0 <= j <= ts.len(),
    ensures
        plain_input(ts.skip(j)),
{
    assert forall|i: int| 0 <= i < ts.skip(j).len() implies plain_tok(
        #[trigger] ts.skip(j)[i],
    ) by {
        assert(ts.skip(j)[i] == ts[i + j]);
    }
}

/// A prefix form of a plain input is an atom: an integer or a unary wrap.
proof fn lemma_prec_prefix(ts: Seq<TokenKindV>)
    requires
        plain_input(ts),
    ensures
        spec_parse_prefix(ts) matches Ok((n, r)) ==> prec_wf(n) && top_prio(n) == 7,
    decreases ts.len(), 2int,
{
    if ts.len() > 0 {
        assert(plain_tok(ts[0]));
        let t = ts.drop_first();
        match ts[0] {
            TokenKindV::PLUS => {
                assert(t == ts.skip(1));
                lemma_plain_skip(ts, 1);
                lemma_prec_expr(t, spec_rank(PriorityLevel::PREFIX));
            },
            TokenKindV::MINUS => {
                assert(t == ts.skip(1));
                lemma_plain_skip(ts, 1);
                lemma_prec_expr(t, spec_rank(PriorityLevel::PREFIX));
            },
            TokenKindV::INCREMENT => {
                assert(t == ts.skip(1));
                lemma_plain_skip(ts, 1);
                lemma_prec_expr(t, spec_rank(PriorityLevel::PREFIX));
            },
            TokenKindV::DECREMENT => {
                assert(t == ts.skip(1));
                lemma_plain_skip(ts, 1);
                lemma_prec_expr(t, spec_rank(PriorityLevel::PREFIX));
            },
            _ => {},
        }
    }
}

/// The Pratt loop preserves precedence correctness: absorbing operators that
/// bind tighter than `p` into a well-shaped `left` keeps the tree well
/// shaped, and whatever stops the loop binds no tighter than `p`.
proof fn lemma_prec_loop(left: NodeV, ts: Seq<TokenKindV>, p: int)
    requires
        plain_input(ts),
        0 <= p < 7,
        prec_wf(left),
        top_prio(left) > p,
        ts.len() > 0 && spec_is_infix(ts[0]) ==> spec_prio(ts[0]) <= top_prio(left),
    ensures
        spec_parse_loop(left, ts, p) matches Ok((n, r)) ==> prec_wf(n) && top_prio(n) > p && (
        r.len() > 0 && spec_is_infix(r[0]) ==> spec_prio(r[0]) <= p),
    decreases ts.len(), 1int,
{
    if ts.len() == 0 {
    } else if p >= spec_prio(ts[0]) {
    } else if ts[0] == TokenKindV::SEMICOLON {
    } else if spec_is_infix(ts[0]) {
        let op = ts[0];
        let t = ts.drop_first();
        assert(t == ts.skip(1));
        lemma_plain_skip(ts, 1);
        lemma_prec_expr(t, spec_prio(op));
        lemma_binary_consumes(left, ts);
        match spec_parse_binary(left, ts) {
            Ok((node, r)) => {
                lemma_plain_skip(ts, ts.len() - r.len());
                lemma_prec_loop(node, r, p);
            },
            _ => {},
        }
    }
}

/// An expression parse of a plain input yields a precedence-correct tree
/// whose top binds tighter than the ambient level, and stops only at an
/// operator binding no tighter than that level.
proof fn lemma_prec_expr(ts: Seq<TokenKindV>, p: int)
    requires
        plain_input(ts),
        0 <= p < 7,
    ensures
        spec_parse_expr(ts, p) matches Ok((n, r)) ==> prec_wf(n) && top_prio(n) > p && (r.len() > 0
            && spec_is_infix(r[0]) ==> spec_prio(r[0]) <= p),
    decreases ts.len(), 3int,
{
    lemma_prec_prefix(ts);
    lemma_prefix_consumes(ts);
    match spec_parse_prefix(ts) {
        Ok((left, r1)) => {
            lemma_plain_skip(ts, ts.len() - r1.len());
            lemma_prec_loop(left, r1, p);
        },
        _ => {},
    }
}

/// Precedence correctness: parsing any input made only of integer literals
/// and operators (no braces, no bindings) that succeeds yields a tree in
/// which higher-precedence operators group deeper than lower-precedence
/// ones, and operators of equal precedence group left-associatively.
pub proof fn lemma_precedence_correct(ts: Seq<TokenKindV>)
    requires
        plain_input(ts),
    ensures
        spec_parse_expr(ts, spec_rank(PriorityLevel::LOWEST)) matches Ok((n, r)) ==> prec_wf(n),
{
    lemma_prec_expr(ts, spec_rank(PriorityLevel::LOWEST));
}

/// A terminator context: nothing, or input led by `;` or `)`. Such a head
/// has no prefix rule, no infix rule, and the lowest binding strength, so
/// the expression parser never reads past it.
pub open spec fn stopper(s: Seq<TokenKindV>) -> bool {
    s.len() == 0 || s[0] == TokenKindV::SEMICOLON || s[0] == TokenKindV::RBRACE
}

/// A suffix of a concatenation that is at least as long as the second part
/// splits along the concatenation.
proof fn lemma_split_suffix(a: Seq<TokenKindV>, s: Seq<TokenKindV>, r: Seq<TokenKindV>)
    requires
        s.len() <= r.len() <= a.len() + s.len(),
        r == (a + s).skip(a.len() + s.len() - r.len()),
    ensures
        r == a.skip(a.len() + s.len() - r.len()) + s,
{
    assert(r =~= a.skip(a.len() + s.len() - r.len()) + s);
}

/// Exchanging one terminator context for another under a prefix parse that
/// stays within `a`: the tree and the consumed tokens do not change.
proof fn lemma_swap_prefix(a: Seq<TokenKindV>, s1: Seq<TokenKindV>, s2: Seq<TokenKindV>)
    requires
        stopper(s1),
        stopper(s2),
    ensures
        spec_parse_prefix(a + s1) matches Ok((n, r)) ==> (r.len() >= s1.len()
            ==> spec_parse_prefix(a + s2) == Ok::<(NodeV, Seq<TokenKindV>), ParseErrorV>(
            (n, a.skip(a.len() + s1.len() - r.len()) + s2),
        )),
    decreases a.len(), 2int,
{
    let w1 = a + s1;
    let w2 = a + s2;
    match spec_parse_prefix(w1) {
        Ok((n, r)) => {
            if r.len() >= s1.len() {
                if a.len() == 0 {
                    assert(w1 =~= s1);
                    assert(false);
                } else {
                    assert(w1[0] == a[0] && w2[0] == a[0]);
                    let t1 = w1.drop_first();
                    let t2 = w2.drop_first();
                    let b = a.drop_first();
                    assert(t1 =~= b + s1);
                    assert(t2 =~= b + s2);
                    match a[0] {
                        TokenKindV::LITERAL(_) => {
                            assert(r == t1);
                            assert(t1 =~= a.skip(1) + s1);
                            assert(a.skip(1) == a.skip(a.len() + s1.len() - r.len()));
                            assert(t2 =~= a.skip(a.len() + s1.len() - r.len()) + s2);
                        },
                        TokenKindV::LBRACE => {
                            lemma_expr_consumes(t1, 0);
                            lemma_swap_expr(b, s1, s2, 0);
                            match spec_parse_expr(t1, 0) {
                                Ok((n1, r1)) => {
                                    lemma_split_suffix(b, s1, r1);
                                    let k1 = b.len() + s1.len() - r1.len();
                                    let b1 = b.skip(k1);
                                    assert(r1 == b1 + s1);
                                    assert(b1.len() == r1.len() - s1.len());
                                    assert(b1.len() >= 1);
                                    assert(r1[0] == b1[0]);
                                    assert((b1 + s2)[0] == b1[0]);
                                    assert(r == r1.drop_first());
                                    assert(r =~= b1.drop_first() + s1);
                                    assert(spec_parse_prefix(w2) == Ok::<
                                        (NodeV, Seq<TokenKindV>),
                                        ParseErrorV,
                                    >((n1, (b1 + s2).drop_first())));
                                    assert((b1 + s2).drop_first() =~= b1.drop_first() + s2);
                                    assert(b1.drop_first() =~= a.skip(
                                        a.len() + s1.len() - r.len(),
                                    ));
                                },
                                _ => {},
                            }
                        },
                        TokenKindV::RESERVED(ReservedIDents::LET) => {
                            lemma_swap_let(b, s1, s2);
                            match spec_parse_let(t1) {
                                Ok((n1, r1)) => {
                                    lemma_let_consumes(t1);
                                    lemma_split_suffix(b, s1, r1);
                                    let k1 = b.len() + s1.len() - r1.len();
                                    assert(spec_parse_let(t2) == Ok::<
                                        (NodeV, Seq<TokenKindV>),
                                        ParseErrorV,
                                    >((n1, b.skip(k1) + s2)));
                                    assert(b.skip(k1) =~= a.skip(a.len() + s1.len() - r.len()));
                                },
                                _ => {},
                            }
                        },
                        TokenKindV::PLUS => {
                            lemma_swap_unary(a, s1, s2, r);
                        },
                        TokenKindV::MINUS => {
                            lemma_swap_unary(a, s1, s2, r);
                        },
                        TokenKindV::INCREMENT => {
                            lemma_swap_unary(a, s1, s2, r);
                        },
                        TokenKindV::DECREMENT => {
                            lemma_swap_unary(a, s1, s2, r);
                        },
                        _ => {},
                    }
                }
            }
        },
        _ => {},
    }
}

/// The unary arms of `lemma_swap_prefix`.
proof fn lemma_swap_unary(
    a: Seq<TokenKindV>,
    s1: Seq<TokenKindV>,
    s2: Seq<TokenKindV>,
    r: Seq<TokenKindV>,
)
    requires
        stopper(s1),
        stopper(s2),
        a.len() >= 1,
        s1.len() <= r.len(),
    ensures
        spec_parse_unary(a[0], a.drop_first() + s1) matches Ok((n, rr)) ==> (rr == r
            ==> spec_parse_unary(a[0], a.drop_first() + s2) == Ok::<
            (NodeV, Seq<TokenKindV>),
            ParseErrorV,
        >((n, a.skip(a.len() + s1.len() - r.len()) + s2))),
    decreases a.len(), 1int,
{
    let b = a.drop_first();
    let p = spec_rank(PriorityLevel::PREFIX);
    lemma_swap_expr(b, s1, s2, p);
    lemma_expr_consumes(b + s1, p);
    match spec_parse_expr(b + s1, p) {
        Ok((n1, r1)) => {
            if r1 == r {
                assert(b == a.skip(1));
                lemma_skip_skip(a, 1, b.len() + s1.len() - r1.len());
            }
        },
        _ => {},
    }
}

/// Exchanging the terminator context under a `let` parse.
proof fn lemma_swap_let(a: Seq<TokenKindV>, s1: Seq<TokenKindV>, s2: Seq<TokenKindV>)
    requires
        stopper(s1),
        stopper(s2),
    ensures
        spec_parse_let(a + s1) matches Ok((n, r)) ==> (r.len() >= s1.len() ==> spec_parse_let(
            a + s2,
        ) == Ok::<(NodeV, Seq<TokenKindV>), ParseErrorV>(
            (n, a.skip(a.len() + s1.len() - r.len()) + s2),
        )),
    decreases a.len(), 0int,
{
    let w1 = a + s1;
    let w2 = a + s2;
    match spec_parse_let(w1) {
        Ok((n, r)) => {
            if r.len() >= s1.len() {
                if a.len() == 0 {
                    assert(w1 =~= s1);
                    assert(false);
                } else if a.len() == 1 {
                    assert(w1[0] == a[0]);
                    assert(w1.len() >= 2 ==> w1[1] == s1[0]);
                    assert(false);
                } else {
                    assert(w1[0] == a[0] && w1[1] == a[1]);
                    assert(w2[0] == a[0] && w2[1] == a[1]);
                    let b = a.skip(2);
                    assert(w1.skip(2) =~= b + s1);
                    assert(w2.skip(2) =~= b + s2);
                    lemma_swap_expr(b, s1, s2, 0);
                    lemma_expr_consumes(b + s1, 0);
                    match spec_parse_expr(b + s1, 0) {
                        Ok((n1, r1)) => {
                            lemma_skip_skip(a, 2, b.len() + s1.len() - r1.len());
                        },
                        _ => {},
                    }
                }
            }
        },
        _ => {},
    }
}

/// Exchanging the terminator context under the Pratt loop.
proof fn lemma_swap_loop(
    left: NodeV,
    a: Seq<TokenKindV>,
    s1: Seq<TokenKindV>,
    s2: Seq<TokenKindV>,
    p: int,
)
    requires
        stopper(s1),
        stopper(s2),
        p >= 0,
    ensures
        spec_parse_loop(left, a + s1, p) matches Ok((n, r)) ==> (r.len() >= s1.len()
            ==> spec_parse_loop(left, a + s2, p) == Ok::<(NodeV, Seq<TokenKindV>), ParseErrorV>(
            (n, a.skip(a.len() + s1.len() - r.len()) + s2),
        )),
    decreases a.len(), 1int,
{
    let w1 = a + s1;
    let w2 = a + s2;
    match spec_parse_loop(left, w1, p) {
        Ok((n, r)) => {
            if r.len() >= s1.len() {
                if a.len() == 0 {
                    assert(w1 =~= s1);
                    assert(w2 =~= s2);
                    assert(r == s1);
                    assert(spec_parse_loop(left, s2, p) == Ok::<
                        (NodeV, Seq<TokenKindV>),
                        ParseErrorV,
                    >((left, s2)));
                    assert(a.skip(0) + s2 =~= s2);
                } else {
                    assert(w1[0] == a[0] && w2[0] == a[0]);
                    if p >= spec_prio(a[0]) || a[0] == TokenKindV::SEMICOLON || !spec_is_infix(
                        a[0],
                    ) {
                        assert(r == w1);
                        assert(a.skip(0) + s2 =~= w2);
                    } else {
                        let b = a.drop_first();
                        assert(w1.drop_first() =~= b + s1);
                        assert(w2.drop_first() =~= b + s2);
                        lemma_binary_consumes(left, w1);
                        match spec_parse_binary(left, w1) {
                            Ok((node, rb)) => {
                                lemma_loop_consumes(node, rb, p);
                                assert(rb.len() >= r.len());
                                lemma_expr_consumes(b + s1, spec_prio(a[0]));
                                lemma_swap_expr(b, s1, s2, spec_prio(a[0]));
                                match spec_parse_expr(b + s1, spec_prio(a[0])) {
                                    Ok((rhs, r1)) => {
                                        assert(r1 == rb);
                                        lemma_split_suffix(b, s1, rb);
                                        let k1 = b.len() + s1.len() - rb.len();
                                        let bb = b.skip(k1);
                                        assert(rb == bb + s1);
                                        assert(spec_parse_binary(left, w2) == Ok::<
                                            (NodeV, Seq<TokenKindV>),
                                            ParseErrorV,
                                        >((node, bb + s2)));
                                        lemma_swap_loop(node, bb, s1, s2, p);
                                        assert(bb.skip(bb.len() + s1.len() - r.len()) =~= a.skip(
                                            a.len() + s1.len() - r.len(),
                                        ));
                                    },
                                    _ => {},
                                }
                            },
                            _ => {},
                        }
                    }
                }
            }
        },
        _ => {},
    }
}

/// Exchanging the terminator context under an expression parse: parsing
/// `a` before `s1` and before `s2` consumes the same tokens of `a` and
/// builds the same tree, whenever the parse never reads into the context.
proof fn lemma_swap_expr(a: Seq<TokenKindV>, s1: Seq<TokenKindV>, s2: Seq<TokenKindV>, p: int)
    requires
        stopper(s1),
        stopper(s2),
        p >= 0,
    ensures
        spec_parse_expr(a + s1, p) matches Ok((n, r)) ==> (r.len() >= s1.len()
            ==> spec_parse_expr(a + s2, p) == Ok::<(NodeV, Seq<TokenKindV>), ParseErrorV>(
            (n, a.skip(a.len() + s1.len() - r.len()) + s2),
        )),
    decreases a.len(), 3int,
{
    let w1 = a + s1;
    let w2 = a + s2;
    match spec_parse_expr(w1, p) {
        Ok((n, r)) => {
            if r.len() >= s1.len() {
                lemma_prefix_consumes(w1);
                match spec_parse_prefix(w1) {
                    Ok((left, r1)) => {
                        lemma_loop_consumes(left, r1, p);
                        assert(r1.len() >= r.len());
                        lemma_swap_prefix(a, s1, s2);
                        lemma_split_suffix(a, s1, r1);
                        let k1 = a.len() + s1.len() - r1.len();
                        let b1 = a.skip(k1);
                        assert(r1 == b1 + s1);
                        assert(k1 >= 1);
                        assert(spec_parse_prefix(w2) == Ok::<
                            (NodeV, Seq<TokenKindV>),
                            ParseErrorV,
                        >((left, b1 + s2)));
                        assert((b1 + s2).len() < w2.len());
                        lemma_swap_loop(left, b1, s1, s2, p);
                        assert(b1.skip(b1.len() + s1.len() - r.len()) =~= a.skip(
                            a.len() + s1.len() - r.len(),
                        ));
                    },
                    _ => {},
                }
            }
        },
        _ => {},
    }
}

/// Parenthesis identity: if an expression's tokens parse as a whole
/// expression, the same tokens wrapped in round braces parse as a whole
/// expression too, to the identical tree.
pub proof fn lemma_paren_identity(ts: Seq<TokenKindV>)
    ensures
        spec_parse_expr(ts, spec_rank(PriorityLevel::LOWEST)) matches Ok((n, r)) ==> (r.len() == 0
            ==> spec_parse_expr(
            seq![TokenKindV::LBRACE] + ts + seq![TokenKindV::RBRACE],
            spec_rank(PriorityLevel::LOWEST),
        ) == Ok::<(NodeV, Seq<TokenKindV>), ParseErrorV>((n, Seq::<TokenKindV>::empty()))),
{
    match spec_parse_expr(ts, 0) {
        Ok((n, r)) => {
            if r.len() == 0 {
                let rb = seq![TokenKindV::RBRACE];
                let w = seq![TokenKindV::LBRACE] + ts + rb;
                assert(ts + Seq::<TokenKindV>::empty() =~= ts);
                lemma_swap_expr(ts, Seq::<TokenKindV>::empty(), rb, 0);
                assert(spec_parse_expr(ts + rb, 0) == Ok::<(NodeV, Seq<TokenKindV>), ParseErrorV>(
                    (n, ts.skip(ts.len() as int) + rb),
                ));
                assert(ts.skip(ts.len() as int) + rb =~= rb);
                assert(w[0] == TokenKindV::LBRACE);
                assert(w.drop_first() =~= ts + rb);
                assert(spec_parse_prefix(w) == Ok::<(NodeV, Seq<TokenKindV>), ParseErrorV>(
                    (n, rb.drop_first()),
                ));
                assert(rb.drop_first() =~= Seq::<TokenKindV>::empty());
                assert(spec_parse_loop(n, Seq::<TokenKindV>::empty(), 0) == Ok::<
                    (NodeV, Seq<TokenKindV>),
                    ParseErrorV,
                >((n, Seq::<TokenKindV>::empty())));
            }
        },
        _ => {},
    }
}

} // verus!
