//! Abstract-syntax-tree construction for Iron modules.
//!
//! The grammar engine (an external collaborator) turns raw source text into a
//! concrete parse tree; this crate walks that tree and builds the typed
//! in-memory representation of a module: its imports, type declarations and
//! functions, with function bodies kept as flat, grouping-annotated operator
//! sequences.  Syntactic validity is the grammar's business: the walk trusts
//! the tree's shape and reports a structural mismatch as a failure value
//! rather than a diagnostic.

use vstd::prelude::*;

pub mod custom_type;
pub mod expression;
pub mod function;
pub mod import;
pub mod module;
pub mod statement;
pub mod string;
pub mod tree;

use crate::module::{spec_module, Module, ModuleV};
use crate::tree::{NodeV, ParseNode, Tag};

verus! {

/// The two ways a build can fail: the grammar engine rejected the source
/// text, or a parse-tree node did not have the shape the transcription
/// assumes (a mismatch between the grammar's guarantees and this layer).
#[derive(Clone, Copy, Debug, PartialEq, Eq, Structural)]
pub enum ParseFailure {
    GrammarRejection,
    InternalInconsistency,
}

/// The module a named parse tree builds to: the root must be a `module`
/// production; anything else is an internal-consistency failure.
pub open spec fn spec_parse_str(name: Seq<char>, root: NodeV) -> Option<ModuleV> {
    if root.tag == Tag::Module {
        spec_module(name, root)
    } else {
        None
    }
}

/// Builds the module named `name` from the parse tree the grammar engine
/// produced for a source text's `module` production.
pub fn parse_str(name: &str, root: &ParseNode) -> (r: Result<Module, ParseFailure>)
    ensures
        match r {
            Ok(m) => {
                &&& spec_parse_str(name@, root.deep()) == Some(m.deep())
                &&& m.wf()
            },
            Err(e) => {
                &&& spec_parse_str(name@, root.deep()) is None
                &&& e == ParseFailure::InternalInconsistency
            },
        },
{
    match root.tag {
        Tag::Module => crate::module::parse(name, root),
        _ => Err(ParseFailure::InternalInconsistency),
    }
}

/// Transcription is deterministic: the module built is a function of the
/// module name and the parse tree alone, so parsing identical source text
/// twice yields structurally identical modules.
pub proof fn lemma_parse_deterministic(name1: Seq<char>, root1: NodeV, name2: Seq<char>, root2: NodeV)
    requires
        name1 == name2,
        root1 == root2,
    ensures
        spec_parse_str(name1, root1) == spec_parse_str(name2, root2),
{
}

} // verus!
