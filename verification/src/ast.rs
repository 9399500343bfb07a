//! The abstract syntax tree the parser produces.

use vstd::prelude::*;
use crate::grammar::{TokenKind, TokenKindV};

verus! {

/// A node of the abstract syntax tree. Each compound node exclusively owns
/// its children; the tree is acyclic and never mutated after parsing.
#[allow(non_camel_case_types)]
#[derive(Debug, PartialEq, Eq)]
pub enum Node {
    INTEGER(i32),
    BINARY { lhs: Box<Node>, rhs: Box<Node>, op: TokenKind },
    UNARY { val: Box<Node>, op: TokenKind },
    VAL { name: String, expr: Box<Node> },
    BLOCK(Vec<Node>),
    FUNCTION { name: String, arguments: Vec<Node>, block: Box<Node>, ret_type: TokenKind },
}

/// Mathematical image of a `Node`: strings become `Seq<char>` and child
/// vectors become `Seq`.
#[allow(non_camel_case_types)]
pub enum NodeV {
    INTEGER(i32),
    BINARY { lhs: Box<NodeV>, rhs: Box<NodeV>, op: TokenKindV },
    UNARY { val: Box<NodeV>, op: TokenKindV },
    VAL { name: Seq<char>, expr: Box<NodeV> },
    BLOCK(Seq<NodeV>),
    FUNCTION { name: Seq<char>, arguments: Seq<NodeV>, block: Box<NodeV>, ret_type: TokenKindV },
}

/// The image of a node, taken structurally.
pub open spec fn node_view(n: Node) -> NodeV
    decreases n,
{
    match n {
        Node::INTEGER(v) => NodeV::INTEGER(v),
        Node::BINARY { lhs, rhs, op } => NodeV::BINARY {
            lhs: Box::new(node_view(*lhs)),
            rhs: Box::new(node_view(*rhs)),
            op: op@,
        },
        Node::UNARY { val, op } => NodeV::UNARY { val: Box::new(node_view(*val)), op: op@ },
        Node::VAL { name, expr } => NodeV::VAL { name: name@, expr: Box::new(node_view(*expr)) },
        Node::BLOCK(nodes) => {
            proof {
                broadcast use vstd::std_specs::vec::axiom_vec_decreases_to_view;

            }
            NodeV::BLOCK(nodes_view(nodes@))
        },
        Node::FUNCTION { name, arguments, block, ret_type } => {
            proof {
                broadcast use vstd::std_specs::vec::axiom_vec_decreases_to_view;

            }
            NodeV::FUNCTION {
                name: name@,
                arguments: nodes_view(arguments@),
                block: Box::new(node_view(*block)),
                ret_type: ret_type@,
            }
        },
    }
}

/// The images of a sequence of nodes, in order.
pub open spec fn nodes_view(s: Seq<Node>) -> Seq<NodeV>
    decreases s,
{
    if s.len() == 0 {
        Seq::<NodeV>::empty()
    } else {
        proof {
            broadcast use vstd::seq::axiom_seq_index_decreases;
            broadcast use vstd::seq::axiom_seq_subrange_decreases;

        }
        seq![node_view(s[0])] + nodes_view(s.drop_first())
    }
}

/// `nodes_view` maps indices pointwise.
pub proof fn lemma_nodes_view(s: Seq<Node>)
    ensures
        nodes_view(s).len() == s.len(),
        forall|i: int| 0 <= i < s.len() ==> nodes_view(s)[i] == node_view(#[trigger] s[i]),
    decreases s.len(),
{
    if s.len() > 0 {
        let dd = s.drop_first();
        lemma_nodes_view(dd);
        assert forall|i: int| 0 <= i < s.len() implies nodes_view(s)[i] == node_view(
            #[trigger] s[i],
        ) by {
            if i >= 1 {
                assert(dd[i - 1] == s[i]);
                assert(nodes_view(s)[i] == nodes_view(dd)[i - 1]);
            }
        }
    }
}

/// `nodes_view` commutes with appending one node.
pub proof fn lemma_nodes_view_push(s: Seq<Node>, n: Node)
    ensures
        nodes_view(s.push(n)) == nodes_view(s).push(node_view(n)),
{
    lemma_nodes_view(s);
    lemma_nodes_view(s.push(n));
    assert forall|i: int| 0 <= i < s.len() + 1 implies nodes_view(s.push(n))[i] == nodes_view(
        s,
    ).push(node_view(n))[i] by {
        if i < s.len() {
            assert(s.push(n)[i] == s[i]);
        } else {
            assert(s.push(n)[i] == n);
        }
    }
    assert(nodes_view(s.push(n)) =~= nodes_view(s).push(node_view(n)));
}

impl View for Node {
    type V = NodeV;

    open spec fn view(&self) -> NodeV {
        node_view(*self)
    }
}

} // verus!
