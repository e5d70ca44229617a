//! The concrete parse tree handed over by the grammar engine.
//!
//! The engine matches source text against a fixed set of grammar productions;
//! each match becomes a node carrying the production's tag, the matched text,
//! and the sub-matches in source order.  The builders in this crate walk
//! these nodes; they never see the source text itself.

use vstd::prelude::*;

verus! {

broadcast use vstd::std_specs::vec::group_vec_axioms;

/// The closed set of grammar production tags.  Dispatch in the builders is
/// an exhaustive match over this enumeration.
#[derive(Clone, Copy, Debug, PartialEq, Eq, Structural)]
pub enum Tag {
    Module,
    Statement,
    Import,
    Function,
    CustomType,
    TypeAttribute,
    ExpressionList,
    Assignment,
    ReturnStmt,
    OpSequence,
    FunctionCall,
    FunctionArg,
    FunctionParameterList,
    FunctionParameter,
    Returns,
    Label,
    Kind,
    Public,
    Identifier,
    StringLiteral,
    StringText,
    BooleanValue,
    NumericValue,
    OpEq,
    OpNeq,
    OpAdd,
    OpSubtract,
    OpPow,
    OpMultiply,
    OpDivide,
    OpGt,
    OpGte,
    OpLt,
    OpLte,
    LogicAnd,
    LogicOr,
    LogicXor,
    LogicNot,
    BitwiseAnd,
    BitwiseOr,
    BitwiseXor,
}

/// One node of the concrete parse tree: a production tag, the text the
/// production matched, and the child productions in source order.
#[derive(Debug)]
pub struct ParseNode {
    pub tag: Tag,
    pub text: String,
    pub children: Vec<ParseNode>,
}

/// The mathematical value of a parse-tree node.
pub struct NodeV {
    pub tag: Tag,
    pub text: Seq<char>,
    pub children: Seq<NodeV>,
}

/// The mathematical values of a sequence of parse-tree nodes, element-wise.
pub open spec fn deep_nodes(s: Seq<ParseNode>) -> Seq<NodeV>
    decreases s,
{
    if s.len() == 0 {
        Seq::empty()
    } else {
        deep_nodes(s.drop_last()).push(s.last().deep())
    }
}

/// `deep_nodes` maps the sequence element-wise.
pub proof fn lemma_deep_nodes(s: Seq<ParseNode>)
    ensures
        deep_nodes(s).len() == s.len(),
        forall|i: int| 0 <= i < s.len() ==> deep_nodes(s)[i] == s[i].deep(),
    decreases s.len(),
{
    if s.len() > 0 {
        lemma_deep_nodes(s.drop_last());
    }
}

impl ParseNode {
    /// The node's mathematical value: tags unchanged, text as a character
    /// sequence, children element-wise.
    pub open spec fn deep(self) -> NodeV
        decreases self,
        via Self::deep_decreases
    {
        NodeV { tag: self.tag, text: self.text@, children: deep_nodes(self.children@) }
    }

    #[via_fn]
    proof fn deep_decreases(self) {
        assert(decreases_to!(self => self.children));
        assert(decreases_to!(self.children => self.children@));
    }

    /// Builds an inner node.
    pub fn new(tag: Tag, text: String, children: Vec<ParseNode>) -> (node: ParseNode)
        ensures
            node.deep() == (NodeV { tag, text: text@, children: deep_nodes(children@) }),
    {
        ParseNode { tag, text, children }
    }

    /// Builds a node without children, as the engine produces for a single
    /// matched token.
    pub fn leaf(tag: Tag, text: String) -> (node: ParseNode)
        ensures
            node.deep() == (NodeV { tag, text: text@, children: Seq::<NodeV>::empty() }),
    {
        let node = ParseNode { tag, text, children: Vec::new() };
        proof {
            assert(node.deep().children =~= Seq::<NodeV>::empty());
        }
        node
    }
}

} // verus!
