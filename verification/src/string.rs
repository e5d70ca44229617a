//! String extraction: unwrapping a string literal's inner text.
//!
//! The grammar nests the characters of a string literal in a single inner
//! `string` production that excludes the surrounding delimiter tokens, so
//! extraction is a matter of locating that child; escape-sequence
//! interpretation stays with the grammar.

use vstd::prelude::*;

use crate::ParseFailure;
use crate::tree::{lemma_deep_nodes, NodeV, ParseNode, Tag};

verus! {

/// What string extraction yields on a string-literal node: the raw text of
/// its inner `string` production (the last such child, should the grammar
/// ever supply several), or nothing when the node does not have the expected
/// shape — no child at all, or a child of another kind.
pub open spec fn spec_string_value(n: NodeV) -> Option<Seq<char>> {
    if n.children.len() > 0 && (forall|i: int|
        0 <= i < n.children.len() ==> n.children[i].tag == Tag::StringText) {
        Some(n.children.last().text)
    } else {
        None
    }
}

/// Unwraps a string literal: returns the raw text of its inner `string`
/// child.  Any other or missing child shape is an internal-consistency
/// failure: the node the grammar handed over is not a string literal as
/// this layer understands one.
pub fn parse(literal: &ParseNode) -> (r: Result<String, ParseFailure>)
    ensures
        match r {
            Ok(s) => spec_string_value(literal.deep()) == Some(s@),
            Err(e) => {
                &&& spec_string_value(literal.deep()) is None
                &&& e == ParseFailure::InternalInconsistency
            },
        },
{
    proof {
        lemma_deep_nodes(literal.children@);
    }
    let n = literal.children.len();
    if n == 0 {
        return Err(ParseFailure::InternalInconsistency);
    }
    let mut i: usize = 0;
    while i < n
        invariant
            i <= n,
            n == literal.children.len(),
            literal.deep().children.len() == literal.children@.len(),
            forall|j: int| 0 <= j < i ==> literal.deep().children[j].tag == Tag::StringText,
            forall|j: int|
                0 <= j < literal.children@.len() ==> literal.deep().children[j]
                    == literal.children@[j].deep(),
        decreases n - i,
    {
        match literal.children[i].tag {
            Tag::StringText => {},
            _ => {
                proof {
                    assert(literal.deep().children[i as int].tag != Tag::StringText);
                }
                return Err(ParseFailure::InternalInconsistency);
            },
        }
        i += 1;
    }
    Ok(literal.children[n - 1].text.clone())
}

} // verus!
