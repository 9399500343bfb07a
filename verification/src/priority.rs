//! Operator precedence: a totally ordered enumeration of binding strengths
//! and the strength of each token kind.

use vstd::prelude::*;
use crate::grammar::{TokenKind, TokenKindV};

verus! {

/// Binding strength, lowest to highest:
/// `LOWEST < EQUAL < CMP < SUM_SUB < DIV_MUL < PREFIX < LBRACE`.
#[allow(non_camel_case_types)]
#[derive(Clone, Copy, Debug, PartialEq, Eq, Structural)]
pub enum PriorityLevel {
    LOWEST,
    EQUAL,
    CMP,
    SUM_SUB,
    DIV_MUL,
    PREFIX,
    LBRACE,
}

/// The numeric rank of a level, 0 through 6 in the order above.
pub open spec fn spec_rank(p: PriorityLevel) -> int {
    match p {
        PriorityLevel::LOWEST => 0,
        PriorityLevel::EQUAL => 1,
        PriorityLevel::CMP => 2,
        PriorityLevel::SUM_SUB => 3,
        PriorityLevel::DIV_MUL => 4,
        PriorityLevel::PREFIX => 5,
        PriorityLevel::LBRACE => 6,
    }
}

impl PriorityLevel {
    /// The numeric rank, for comparing two levels.
    pub fn rank(&self) -> (r: u32)
        ensures
            r as int == spec_rank(*self),
    {
        match self {
            PriorityLevel::LOWEST => 0,
            PriorityLevel::EQUAL => 1,
            PriorityLevel::CMP => 2,
            PriorityLevel::SUM_SUB => 3,
            PriorityLevel::DIV_MUL => 4,
            PriorityLevel::PREFIX => 5,
            PriorityLevel::LBRACE => 6,
        }
    }
}

/// The binding strength of a token kind; kinds that are no infix operator
/// (and no opening round brace) sit at `LOWEST`.
pub open spec fn spec_tok_priority(k: TokenKindV) -> PriorityLevel {
    match k {
        TokenKindV::LBRACE => PriorityLevel::LBRACE,
        TokenKindV::SLASH => PriorityLevel::DIV_MUL,
        TokenKindV::STAR => PriorityLevel::DIV_MUL,
        TokenKindV::PLUS => PriorityLevel::SUM_SUB,
        TokenKindV::MINUS => PriorityLevel::SUM_SUB,
        TokenKindV::LT => PriorityLevel::CMP,
        TokenKindV::MT => PriorityLevel::CMP,
        TokenKindV::DEQUAL => PriorityLevel::EQUAL,
        _ => PriorityLevel::LOWEST,
    }
}

/// The numeric binding strength of a token kind.
pub open spec fn spec_prio(k: TokenKindV) -> int {
    spec_rank(spec_tok_priority(k))
}

/// Executable precedence table.
pub fn get_tok_priority(token: &TokenKind) -> (p: PriorityLevel)
    ensures
        p == spec_tok_priority(token@),
{
    match token {
        TokenKind::LBRACE => PriorityLevel::LBRACE,
        TokenKind::SLASH => PriorityLevel::DIV_MUL,
        TokenKind::STAR => PriorityLevel::DIV_MUL,
        TokenKind::PLUS => PriorityLevel::SUM_SUB,
        TokenKind::MINUS => PriorityLevel::SUM_SUB,
        TokenKind::LT => PriorityLevel::CMP,
        TokenKind::MT => PriorityLevel::CMP,
        TokenKind::DEQUAL => PriorityLevel::EQUAL,
        _ => PriorityLevel::LOWEST,
    }
}

} // verus!
