//! Top-level statements and their dispatch.
//!
//! A module's declarations are imports, type declarations and functions; a
//! `statement` production wraps exactly one of them.  The `Error` member is
//! a sentinel for a statement whose recognized child could not be found: it
//! never appears in a successfully built module, and its presence signals a
//! mismatch between the grammar and this layer.

use vstd::prelude::*;

use crate::ParseFailure;
use crate::expression::{deep_exprs, opt_text, Expression, ExpressionV};
use crate::function::{Parameter, ParameterV};
use crate::tree::{lemma_deep_nodes, NodeV, ParseNode, Tag};

verus! {

/// A top-level declaration of a module.
#[derive(Debug)]
pub enum Statement {
    Import { path: String, name: String, alias: Option<String> },
    Type { public: bool, name: String, attributes: Vec<(String, String)> },
    Function {
        public: bool,
        name: String,
        parameters: Option<Vec<Parameter>>,
        return_kinds: Option<Vec<String>>,
        body: Vec<Expression>,
    },
    Error,
}

/// Mathematical value of a top-level declaration.
pub enum StatementV {
    Import { path: Seq<char>, name: Seq<char>, alias: Option<Seq<char>> },
    Type { public: bool, name: Seq<char>, attributes: Seq<(Seq<char>, Seq<char>)> },
    Function {
        public: bool,
        name: Seq<char>,
        parameters: Option<Seq<ParameterV>>,
        return_kinds: Option<Seq<Seq<char>>>,
        body: Seq<ExpressionV>,
    },
    Error,
}

/// Element-wise mathematical value of an attribute list.
pub open spec fn deep_attrs(s: Seq<(String, String)>) -> Seq<(Seq<char>, Seq<char>)> {
    Seq::new(s.len(), |i: int| (s[i].0@, s[i].1@))
}

/// Element-wise mathematical value of a parameter list.
pub open spec fn deep_params(s: Seq<Parameter>) -> Seq<ParameterV> {
    Seq::new(s.len(), |i: int| s[i].deep())
}

/// Element-wise mathematical value of a list of type names.
pub open spec fn deep_names(s: Seq<String>) -> Seq<Seq<char>> {
    Seq::new(s.len(), |i: int| s[i]@)
}

/// The mathematical value of an optional parameter list.
pub open spec fn opt_params(o: Option<Vec<Parameter>>) -> Option<Seq<ParameterV>> {
    match o {
        Some(v) => Some(deep_params(v@)),
        None => None,
    }
}

/// The mathematical value of an optional list of type names.
pub open spec fn opt_names(o: Option<Vec<String>>) -> Option<Seq<Seq<char>>> {
    match o {
        Some(v) => Some(deep_names(v@)),
        None => None,
    }
}

impl Statement {
    /// The statement's mathematical value.
    pub open spec fn deep(self) -> StatementV {
        match self {
            Statement::Import { path, name, alias } => StatementV::Import {
                path: path@,
                name: name@,
                alias: opt_text(alias),
            },
            Statement::Type { public, name, attributes } => StatementV::Type {
                public,
                name: name@,
                attributes: deep_attrs(attributes@),
            },
            Statement::Function { public, name, parameters, return_kinds, body } => {
                StatementV::Function {
                    public,
                    name: name@,
                    parameters: opt_params(parameters),
                    return_kinds: opt_names(return_kinds),
                    body: deep_exprs(body@),
                }
            },
            Statement::Error => StatementV::Error,
        }
    }
}

/// The name a statement is keyed under in a module's environment: the
/// import name, the type name, or the function name.
pub open spec fn spec_statement_name(s: StatementV) -> Seq<char> {
    match s {
        StatementV::Import { name, .. } => name,
        StatementV::Type { name, .. } => name,
        StatementV::Function { name, .. } => name,
        StatementV::Error => Seq::empty(),
    }
}

/// The statement a `statement` production's children build to: the last
/// recognized child wins, a statement with no recognized child is the
/// `Error` sentinel, and a failing sub-build fails the statement.
pub open spec fn statement_fold(cs: Seq<NodeV>) -> Option<StatementV>
    decreases cs,
{
    if cs.len() == 0 {
        Some(StatementV::Error)
    } else {
        match statement_fold(cs.drop_last()) {
            None => None,
            Some(s) => {
                let c = cs.last();
                if c.tag == Tag::Import {
                    crate::import::spec_import(c)
                } else if c.tag == Tag::Function {
                    crate::function::spec_function(c)
                } else if c.tag == Tag::CustomType {
                    Some(crate::custom_type::spec_custom_type(c))
                } else {
                    Some(s)
                }
            },
        }
    }
}

/// The statement a `statement` node builds to.
pub open spec fn spec_statement(n: NodeV) -> Option<StatementV> {
    statement_fold(n.children)
}

/// Once a prefix of a statement's children fails to build, the whole
/// statement fails.
proof fn lemma_statement_fold_fail(cs: Seq<NodeV>, j: int)
    requires
        0 <= j <= cs.len(),
        statement_fold(cs.subrange(0, j)) is None,
    ensures
        statement_fold(cs) is None,
    decreases cs.len() - j,
{
    if j == cs.len() {
        assert(cs.subrange(0, j) =~= cs);
    } else {
        assert(cs.subrange(0, j + 1).drop_last() =~= cs.subrange(0, j));
        lemma_statement_fold_fail(cs, j + 1);
    }
}

/// Dispatches a `statement` node on its single recognized child — an
/// import, a function, or a type declaration — and returns that builder's
/// result unchanged.  With no recognized child the `Error` sentinel is
/// returned, for the module assembler to reject.
pub fn parse(statement: &ParseNode) -> (r: Result<Statement, ParseFailure>)
    ensures
        match r {
            Ok(s) => spec_statement(statement.deep()) == Some(s.deep()),
            Err(e) => {
                &&& spec_statement(statement.deep()) is None
                &&& e == ParseFailure::InternalInconsistency
            },
        },
{
    let mut s = Statement::Error;
    proof {
        lemma_deep_nodes(statement.children@);
    }
    let ghost cs = statement.deep().children;
    let n = statement.children.len();
    let mut i: usize = 0;
    while i < n
        invariant
            i <= n,
            n == statement.children.len(),
            cs == statement.deep().children,
            cs.len() == statement.children@.len(),
            forall|j: int| 0 <= j < cs.len() ==> cs[j] == statement.children@[j].deep(),
            statement_fold(cs.subrange(0, i as int)) == Some(s.deep()),
        decreases n - i,
    {
        let ghost c = cs[i as int];
        let child = &statement.children[i];
        match child.tag {
            Tag::Import => {
                match crate::import::parse(child) {
                    Ok(built) => {
                        s = built;
                    },
                    Err(e) => {
                        proof {
                            assert(c == child.deep());
                            assert(cs.subrange(0, i + 1).drop_last() =~= cs.subrange(0, i as int));
                            assert(cs.subrange(0, i + 1).last() == c);
                            assert(statement_fold(cs.subrange(0, i + 1)) is None);
                            lemma_statement_fold_fail(cs, i + 1);
                        }
                        return Err(e);
                    },
                }
            },
            Tag::Function => {
                match crate::function::parse(child) {
                    Ok(built) => {
                        s = built;
                    },
                    Err(e) => {
                        proof {
                            assert(c == child.deep());
                            assert(cs.subrange(0, i + 1).drop_last() =~= cs.subrange(0, i as int));
                            assert(cs.subrange(0, i + 1).last() == c);
                            assert(statement_fold(cs.subrange(0, i + 1)) is None);
                            lemma_statement_fold_fail(cs, i + 1);
                        }
                        return Err(e);
                    },
                }
            },
            Tag::CustomType => {
                s = crate::custom_type::parse(child);
            },
            _ => {},
        }
        i += 1;
        proof {
            assert(c == child.deep());
            assert(cs.subrange(0, i as int).drop_last() =~= cs.subrange(0, i - 1));
            assert(cs.subrange(0, i as int).last() == c);
        }
    }
    proof {
        assert(cs.subrange(0, n as int) =~= cs);
    }
    Ok(s)
}

} // verus!
