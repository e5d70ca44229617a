//! The function builder.
//!
//! A function declaration carries a visibility flag, a name, an optional
//! parameter list, an optional list of return type names, and a body: the
//! ordered list of its expressions, each an assignment, a return statement,
//! or a bare operator sequence.  Declared type names stay raw text; type
//! resolution is not this layer's business.

use vstd::prelude::*;

use crate::ParseFailure;
use crate::expression::{
    deep_exprs, deep_stack, opt_text, parse_op_sequence, spec_stack, Expression, ExpressionV,
    StackItem, StackItemV,
};
use crate::statement::{deep_names, deep_params, opt_names, opt_params, Statement, StatementV};
use crate::tree::{lemma_deep_nodes, NodeV, ParseNode, Tag};

verus! {

/// A declared function parameter: a label for call-site named-argument
/// syntax, the parameter's name, and its declared type name as raw text.
#[derive(Clone, Debug)]
pub struct Parameter {
    pub label: String,
    pub name: String,
    pub kind: String,
}

/// Mathematical value of a parameter.
pub struct ParameterV {
    pub label: Seq<char>,
    pub name: Seq<char>,
    pub kind: Seq<char>,
}

impl Parameter {
    /// The parameter's mathematical value.
    pub open spec fn deep(self) -> ParameterV {
        ParameterV { label: self.label@, name: self.name@, kind: self.kind@ }
    }
}

/// The fields of a function declaration while its children are folded up.
pub struct FunctionFieldsV {
    pub public: bool,
    pub name: Seq<char>,
    pub parameters: Option<Seq<ParameterV>>,
    pub return_kinds: Option<Seq<Seq<char>>>,
    pub body: Seq<ExpressionV>,
}

/// The parameter a `function_parameter` production's children build to,
/// later children overriding earlier ones; others are skipped.
pub open spec fn param_fold(cs: Seq<NodeV>) -> ParameterV
    decreases cs,
{
    if cs.len() == 0 {
        ParameterV { label: Seq::empty(), name: Seq::empty(), kind: Seq::empty() }
    } else {
        let prior = param_fold(cs.drop_last());
        let c = cs.last();
        if c.tag == Tag::Label {
            ParameterV { label: c.text, name: prior.name, kind: prior.kind }
        } else if c.tag == Tag::Identifier {
            ParameterV { label: prior.label, name: c.text, kind: prior.kind }
        } else if c.tag == Tag::Kind {
            ParameterV { label: prior.label, name: prior.name, kind: c.text }
        } else {
            prior
        }
    }
}

/// The parameter a `function_parameter` node builds to.
pub open spec fn spec_parameter(n: NodeV) -> ParameterV {
    param_fold(n.children)
}

/// The parameters a parameter list's children build to, in source order;
/// children of other productions are skipped.
pub open spec fn params_fold(cs: Seq<NodeV>) -> Seq<ParameterV>
    decreases cs,
{
    if cs.len() == 0 {
        Seq::empty()
    } else {
        let prior = params_fold(cs.drop_last());
        let c = cs.last();
        if c.tag == Tag::FunctionParameter {
            prior.push(spec_parameter(c))
        } else {
            prior
        }
    }
}

/// The parameters a `function_parameter_list` node builds to.
pub open spec fn spec_parameters(n: NodeV) -> Seq<ParameterV> {
    params_fold(n.children)
}

/// The return type names a `returns` production's children build to, in
/// source order; children of other productions are skipped.
pub open spec fn returns_fold(cs: Seq<NodeV>) -> Seq<Seq<char>>
    decreases cs,
{
    if cs.len() == 0 {
        Seq::empty()
    } else {
        let prior = returns_fold(cs.drop_last());
        let c = cs.last();
        if c.tag == Tag::Kind {
            prior.push(c.text)
        } else {
            prior
        }
    }
}

/// The return type names a `returns` node builds to.
pub open spec fn spec_returns(n: NodeV) -> Seq<Seq<char>> {
    returns_fold(n.children)
}

/// The target identifier, optional declared kind, and right-hand stack an
/// assignment's children build to; children of other productions are
/// skipped.
pub open spec fn assignment_fold(cs: Seq<NodeV>) -> Option<
    (Seq<char>, Option<Seq<char>>, Seq<StackItemV>),
>
    decreases cs,
{
    if cs.len() == 0 {
        Some((Seq::empty(), None, Seq::empty()))
    } else {
        match assignment_fold(cs.drop_last()) {
            None => None,
            Some((identifier, kind, value)) => {
                let c = cs.last();
                if c.tag == Tag::Identifier {
                    Some((c.text, kind, value))
                } else if c.tag == Tag::Kind {
                    Some((identifier, Some(c.text), value))
                } else if c.tag == Tag::OpSequence {
                    match spec_stack(c) {
                        None => None,
                        Some(v) => Some((identifier, kind, v)),
                    }
                } else {
                    Some((identifier, kind, value))
                }
            },
        }
    }
}

/// The assignment expression an `assignment` node builds to.
pub open spec fn spec_assignment(n: NodeV) -> Option<ExpressionV> {
    match assignment_fold(n.children) {
        None => None,
        Some((identifier, kind, value)) => Some(
            ExpressionV::Assignment { identifier, kind, value },
        ),
    }
}

/// The stack a return statement's children build to: its operator
/// sequence; any child of another production is a failure.
pub open spec fn return_fold(cs: Seq<NodeV>) -> Option<Seq<StackItemV>>
    decreases cs,
{
    if cs.len() == 0 {
        Some(Seq::empty())
    } else {
        match return_fold(cs.drop_last()) {
            None => None,
            Some(root) => {
                let c = cs.last();
                if c.tag == Tag::OpSequence {
                    spec_stack(c)
                } else {
                    None
                }
            },
        }
    }
}

/// The return expression a `return_stmt` node builds to.
pub open spec fn spec_return_stmt(n: NodeV) -> Option<ExpressionV> {
    match return_fold(n.children) {
        None => None,
        Some(root) => Some(ExpressionV::Return { root }),
    }
}

/// The body expressions an expression list's children build to, one per
/// child in source order: an assignment, a return statement, or a bare
/// operator sequence.  A child of any other production is a failure: the
/// grammar guarantees only these three forms appear.
pub open spec fn exprs_fold(cs: Seq<NodeV>) -> Option<Seq<ExpressionV>>
    decreases cs,
{
    if cs.len() == 0 {
        Some(Seq::empty())
    } else {
        match exprs_fold(cs.drop_last()) {
            None => None,
            Some(acc) => {
                let c = cs.last();
                if c.tag == Tag::Assignment {
                    match spec_assignment(c) {
                        None => None,
                        Some(e) => Some(acc.push(e)),
                    }
                } else if c.tag == Tag::ReturnStmt {
                    match spec_return_stmt(c) {
                        None => None,
                        Some(e) => Some(acc.push(e)),
                    }
                } else if c.tag == Tag::OpSequence {
                    match spec_stack(c) {
                        None => None,
                        Some(root) => Some(acc.push(ExpressionV::Stack { root })),
                    }
                } else {
                    None
                }
            },
        }
    }
}

/// The body an `expression_list` node builds to.
pub open spec fn spec_expression_list(n: NodeV) -> Option<Seq<ExpressionV>> {
    exprs_fold(n.children)
}

/// The fields a function declaration's children build to, in source order
/// with later children overriding earlier ones; children of other
/// productions are skipped.
pub open spec fn function_fold(cs: Seq<NodeV>) -> Option<FunctionFieldsV>
    decreases cs,
{
    if cs.len() == 0 {
        Some(
            FunctionFieldsV {
                public: false,
                name: Seq::empty(),
                parameters: None,
                return_kinds: None,
                body: Seq::empty(),
            },
        )
    } else {
        match function_fold(cs.drop_last()) {
            None => None,
            Some(f) => {
                let c = cs.last();
                if c.tag == Tag::Public {
                    Some(
                        FunctionFieldsV {
                            public: true,
                            name: f.name,
                            parameters: f.parameters,
                            return_kinds: f.return_kinds,
                            body: f.body,
                        },
                    )
                } else if c.tag == Tag::Identifier {
                    Some(
                        FunctionFieldsV {
                            public: f.public,
                            name: c.text,
                            parameters: f.parameters,
                            return_kinds: f.return_kinds,
                            body: f.body,
                        },
                    )
                } else if c.tag == Tag::FunctionParameterList {
                    Some(
                        FunctionFieldsV {
                            public: f.public,
                            name: f.name,
                            parameters: Some(spec_parameters(c)),
                            return_kinds: f.return_kinds,
                            body: f.body,
                        },
                    )
                } else if c.tag == Tag::Returns {
                    Some(
                        FunctionFieldsV {
                            public: f.public,
                            name: f.name,
                            parameters: f.parameters,
                            return_kinds: Some(spec_returns(c)),
                            body: f.body,
                        },
                    )
                } else if c.tag == Tag::ExpressionList {
                    match spec_expression_list(c) {
                        None => None,
                        Some(body) => Some(
                            FunctionFieldsV {
                                public: f.public,
                                name: f.name,
                                parameters: f.parameters,
                                return_kinds: f.return_kinds,
                                body,
                            },
                        ),
                    }
                } else {
                    Some(f)
                }
            },
        }
    }
}

/// The statement a `function` node builds to.
pub open spec fn spec_function(n: NodeV) -> Option<StatementV> {
    match function_fold(n.children) {
        None => None,
        Some(f) => Some(
            StatementV::Function {
                public: f.public,
                name: f.name,
                parameters: f.parameters,
                return_kinds: f.return_kinds,
                body: f.body,
            },
        ),
    }
}

/// Once a prefix of an assignment's children fails to build, the whole
/// assignment fails.
proof fn lemma_assignment_fold_fail(cs: Seq<NodeV>, j: int)
    requires
        0 <= j <= cs.len(),
        assignment_fold(cs.subrange(0, j)) is None,
    ensures
        assignment_fold(cs) is None,
    decreases cs.len() - j,
{
    if j == cs.len() {
        assert(cs.subrange(0, j) =~= cs);
    } else {
        assert(cs.subrange(0, j + 1).drop_last() =~= cs.subrange(0, j));
        lemma_assignment_fold_fail(cs, j + 1);
    }
}

/// Once a prefix of a return statement's children fails to build, the
/// whole return statement fails.
proof fn lemma_return_fold_fail(cs: Seq<NodeV>, j: int)
    requires
        0 <= j <= cs.len(),
        return_fold(cs.subrange(0, j)) is None,
    ensures
        return_fold(cs) is None,
    decreases cs.len() - j,
{
    if j == cs.len() {
        assert(cs.subrange(0, j) =~= cs);
    } else {
        assert(cs.subrange(0, j + 1).drop_last() =~= cs.subrange(0, j));
        lemma_return_fold_fail(cs, j + 1);
    }
}

/// Once a prefix of an expression list's children fails to build, the
/// whole list fails.
proof fn lemma_exprs_fold_fail(cs: Seq<NodeV>, j: int)
    requires
        0 <= j <= cs.len(),
        exprs_fold(cs.subrange(0, j)) is None,
    ensures
        exprs_fold(cs) is None,
    decreases cs.len() - j,
{
    if j == cs.len() {
        assert(cs.subrange(0, j) =~= cs);
    } else {
        assert(cs.subrange(0, j + 1).drop_last() =~= cs.subrange(0, j));
        lemma_exprs_fold_fail(cs, j + 1);
    }
}

/// Once a prefix of a function's children fails to build, the whole
/// function fails.
proof fn lemma_function_fold_fail(cs: Seq<NodeV>, j: int)
    requires
        0 <= j <= cs.len(),
        function_fold(cs.subrange(0, j)) is None,
    ensures
        function_fold(cs) is None,
    decreases cs.len() - j,
{
    if j == cs.len() {
        assert(cs.subrange(0, j) =~= cs);
    } else {
        assert(cs.subrange(0, j + 1).drop_last() =~= cs.subrange(0, j));
        lemma_function_fold_fail(cs, j + 1);
    }
}

/// Extracts one parameter's label, name and declared type name.
fn parse_param(param: &ParseNode) -> (p: Parameter)
    ensures
        p.deep() == spec_parameter(param.deep()),
{
    let mut label = String::new();
    let mut name = String::new();
    let mut kind = String::new();
    proof {
        lemma_deep_nodes(param.children@);
    }
    let ghost cs = param.deep().children;
    let n = param.children.len();
    let mut i: usize = 0;
    while i < n
        invariant
            i <= n,
            n == param.children.len(),
            cs == param.deep().children,
            cs.len() == param.children@.len(),
            forall|j: int| 0 <= j < cs.len() ==> cs[j] == param.children@[j].deep(),
            param_fold(cs.subrange(0, i as int)) == (ParameterV {
                label: label@,
                name: name@,
                kind: kind@,
            }),
        decreases n - i,
    {
        let ghost c = cs[i as int];
        let child = &param.children[i];
        match child.tag {
            Tag::Label => {
                label = child.text.clone();
            },
            Tag::Identifier => {
                name = child.text.clone();
            },
            Tag::Kind => {
                kind = child.text.clone();
            },
            _ => {},
        }
        i += 1;
        proof {
            assert(c == child.deep());
            assert(cs.subrange(0, i as int).drop_last() =~= cs.subrange(0, i - 1));
            assert(cs.subrange(0, i as int).last() == c);
        }
    }
    proof {
        assert(cs.subrange(0, n as int) =~= cs);
    }
    Parameter { label, name, kind }
}

/// Extracts a parameter list, one parameter per `function_parameter`
/// child in source order.
fn parse_params(param_list: &ParseNode) -> (r: Option<Vec<Parameter>>)
    ensures
        match r {
            Some(ps) => deep_params(ps@) == spec_parameters(param_list.deep()),
            None => false,
        },
{
    let mut params: Vec<Parameter> = Vec::new();
    proof {
        lemma_deep_nodes(param_list.children@);
    }
    let ghost cs = param_list.deep().children;
    let n = param_list.children.len();
    let mut i: usize = 0;
    while i < n
        invariant
            i <= n,
            n == param_list.children.len(),
            cs == param_list.deep().children,
            cs.len() == param_list.children@.len(),
            forall|j: int| 0 <= j < cs.len() ==> cs[j] == param_list.children@[j].deep(),
            params_fold(cs.subrange(0, i as int)) == deep_params(params@),
        decreases n - i,
    {
        let ghost c = cs[i as int];
        let ghost prev = params@;
        let child = &param_list.children[i];
        match child.tag {
            Tag::FunctionParameter => {
                let p = parse_param(child);
                params.push(p);
            },
            _ => {},
        }
        i += 1;
        proof {
            assert(c == child.deep());
            assert(cs.subrange(0, i as int).drop_last() =~= cs.subrange(0, i - 1));
            assert(cs.subrange(0, i as int).last() == c);
            if params@.len() > prev.len() {
                assert(deep_params(params@) =~= deep_params(prev).push(params@.last().deep()));
            } else {
                assert(deep_params(params@) =~= deep_params(prev));
            }
        }
    }
    proof {
        assert(cs.subrange(0, n as int) =~= cs);
    }
    Some(params)
}

/// Extracts a list of return type names, one per `kind` child in source
/// order.
fn parse_returns(return_list: &ParseNode) -> (r: Option<Vec<String>>)
    ensures
        match r {
            Some(rs) => deep_names(rs@) == spec_returns(return_list.deep()),
            None => false,
        },
{
    let mut return_kinds: Vec<String> = Vec::new();
    proof {
        lemma_deep_nodes(return_list.children@);
    }
    let ghost cs = return_list.deep().children;
    let n = return_list.children.len();
    let mut i: usize = 0;
    while i < n
        invariant
            i <= n,
            n == return_list.children.len(),
            cs == return_list.deep().children,
            cs.len() == return_list.children@.len(),
            forall|j: int| 0 <= j < cs.len() ==> cs[j] == return_list.children@[j].deep(),
            returns_fold(cs.subrange(0, i as int)) == deep_names(return_kinds@),
        decreases n - i,
    {
        let ghost c = cs[i as int];
        let ghost prev = return_kinds@;
        let child = &return_list.children[i];
        match child.tag {
            Tag::Kind => {
                return_kinds.push(child.text.clone());
            },
            _ => {},
        }
        i += 1;
        proof {
            assert(c == child.deep());
            assert(cs.subrange(0, i as int).drop_last() =~= cs.subrange(0, i - 1));
            assert(cs.subrange(0, i as int).last() == c);
            if return_kinds@.len() > prev.len() {
                assert(deep_names(return_kinds@) =~= deep_names(prev).push(return_kinds@.last()@));
            } else {
                assert(deep_names(return_kinds@) =~= deep_names(prev));
            }
        }
    }
    proof {
        assert(cs.subrange(0, n as int) =~= cs);
    }
    Some(return_kinds)
}

/// Captures an assignment: its target identifier, its optional declared
/// kind, and its right-hand operator sequence as a stack.
pub fn parse_assignment(expr: &ParseNode) -> (r: Result<Expression, ParseFailure>)
    ensures
        match r {
            Ok(e) => spec_assignment(expr.deep()) == Some(e.deep()),
            Err(e) => {
                &&& spec_assignment(expr.deep()) is None
                &&& e == ParseFailure::InternalInconsistency
            },
        },
{
    let mut identifier = String::new();
    let mut kind: Option<String> = None;
    let mut value: Vec<StackItem> = Vec::new();
    proof {
        lemma_deep_nodes(expr.children@);
    }
    let ghost cs = expr.deep().children;
    let n = expr.children.len();
    let mut i: usize = 0;
    while i < n
        invariant
            i <= n,
            n == expr.children.len(),
            cs == expr.deep().children,
            cs.len() == expr.children@.len(),
            forall|j: int| 0 <= j < cs.len() ==> cs[j] == expr.children@[j].deep(),
            assignment_fold(cs.subrange(0, i as int)) == Some(
                (identifier@, opt_text(kind), deep_stack(value@)),
            ),
        decreases n - i,
    {
        let ghost c = cs[i as int];
        let child = &expr.children[i];
        match child.tag {
            Tag::Identifier => {
                identifier = child.text.clone();
            },
            Tag::Kind => {
                kind = Some(child.text.clone());
            },
            Tag::OpSequence => {
                match parse_op_sequence(child) {
                    Ok(v) => {
                        value = v;
                    },
                    Err(e) => {
                        proof {
                            assert(c == child.deep());
                            assert(cs.subrange(0, i + 1).drop_last() =~= cs.subrange(0, i as int));
                            assert(cs.subrange(0, i + 1).last() == c);
                            assert(assignment_fold(cs.subrange(0, i + 1)) is None);
                            lemma_assignment_fold_fail(cs, i + 1);
                        }
                        return Err(e);
                    },
                }
            },
            _ => {},
        }
        i += 1;
        proof {
            assert(c == child.deep());
            assert(cs.subrange(0, i as int).drop_last() =~= cs.subrange(0, i - 1));
            assert(cs.subrange(0, i as int).last() == c);
        }
    }
    proof {
        assert(cs.subrange(0, n as int) =~= cs);
    }
    Ok(Expression::Assignment { identifier, kind, value })
}

/// Wraps a return statement's operator sequence as a stack; a child of any
/// other production is an internal-consistency failure.
pub fn parse_return_stmt(expr: &ParseNode) -> (r: Result<Expression, ParseFailure>)
    ensures
        match r {
            Ok(e) => spec_return_stmt(expr.deep()) == Some(e.deep()),
            Err(e) => {
                &&& spec_return_stmt(expr.deep()) is None
                &&& e == ParseFailure::InternalInconsistency
            },
        },
{
    let mut root: Vec<StackItem> = Vec::new();
    proof {
        lemma_deep_nodes(expr.children@);
    }
    let ghost cs = expr.deep().children;
    let n = expr.children.len();
    let mut i: usize = 0;
    while i < n
        invariant
            i <= n,
            n == expr.children.len(),
            cs == expr.deep().children,
            cs.len() == expr.children@.len(),
            forall|j: int| 0 <= j < cs.len() ==> cs[j] == expr.children@[j].deep(),
            return_fold(cs.subrange(0, i as int)) == Some(deep_stack(root@)),
        decreases n - i,
    {
        let ghost c = cs[i as int];
        let child = &expr.children[i];
        match child.tag {
            Tag::OpSequence => {
                match parse_op_sequence(child) {
                    Ok(v) => {
                        root = v;
                    },
                    Err(e) => {
                        proof {
                            assert(c == child.deep());
                            assert(cs.subrange(0, i + 1).drop_last() =~= cs.subrange(0, i as int));
                            assert(cs.subrange(0, i + 1).last() == c);
                            assert(return_fold(cs.subrange(0, i + 1)) is None);
                            lemma_return_fold_fail(cs, i + 1);
                        }
                        return Err(e);
                    },
                }
            },
            _ => {
                proof {
                    assert(c == child.deep());
                    assert(cs.subrange(0, i + 1).drop_last() =~= cs.subrange(0, i as int));
                    assert(cs.subrange(0, i + 1).last() == c);
                    assert(return_fold(cs.subrange(0, i + 1)) is None);
                    lemma_return_fold_fail(cs, i + 1);
                }
                return Err(ParseFailure::InternalInconsistency);
            },
        }
        i += 1;
        proof {
            assert(c == child.deep());
            assert(cs.subrange(0, i as int).drop_last() =~= cs.subrange(0, i - 1));
            assert(cs.subrange(0, i as int).last() == c);
        }
    }
    proof {
        assert(cs.subrange(0, n as int) =~= cs);
    }
    Ok(Expression::Return { root })
}

/// Builds a function body: each child becomes an assignment, a return
/// statement, or a bare stack expression, in source order.  A child of any
/// other production is an internal-consistency failure.
pub fn parse_expression_list(expr: &ParseNode) -> (r: Result<Vec<Expression>, ParseFailure>)
    ensures
        match r {
            Ok(es) => spec_expression_list(expr.deep()) == Some(deep_exprs(es@)),
            Err(e) => {
                &&& spec_expression_list(expr.deep()) is None
                &&& e == ParseFailure::InternalInconsistency
            },
        },
{
    let mut expressions: Vec<Expression> = Vec::new();
    proof {
        lemma_deep_nodes(expr.children@);
    }
    let ghost cs = expr.deep().children;
    let n = expr.children.len();
    let mut i: usize = 0;
    while i < n
        invariant
            i <= n,
            n == expr.children.len(),
            cs == expr.deep().children,
            cs.len() == expr.children@.len(),
            forall|j: int| 0 <= j < cs.len() ==> cs[j] == expr.children@[j].deep(),
            exprs_fold(cs.subrange(0, i as int)) == Some(deep_exprs(expressions@)),
        decreases n - i,
    {
        let ghost c = cs[i as int];
        let ghost prev = expressions@;
        let child = &expr.children[i];
        match child.tag {
            Tag::Assignment => {
                match parse_assignment(child) {
                    Ok(e) => {
                        expressions.push(e);
                    },
                    Err(e) => {
                        proof {
                            assert(c == child.deep());
                            assert(cs.subrange(0, i + 1).drop_last() =~= cs.subrange(0, i as int));
                            assert(cs.subrange(0, i + 1).last() == c);
                            assert(exprs_fold(cs.subrange(0, i + 1)) is None);
                            lemma_exprs_fold_fail(cs, i + 1);
                        }
                        return Err(e);
                    },
                }
            },
            Tag::ReturnStmt => {
                match parse_return_stmt(child) {
                    Ok(e) => {
                        expressions.push(e);
                    },
                    Err(e) => {
                        proof {
                            assert(c == child.deep());
                            assert(cs.subrange(0, i + 1).drop_last() =~= cs.subrange(0, i as int));
                            assert(cs.subrange(0, i + 1).last() == c);
                            assert(exprs_fold(cs.subrange(0, i + 1)) is None);
                            lemma_exprs_fold_fail(cs, i + 1);
                        }
                        return Err(e);
                    },
                }
            },
            Tag::OpSequence => {
                match parse_op_sequence(child) {
                    Ok(root) => {
                        expressions.push(Expression::Stack { root });
                    },
                    Err(e) => {
                        proof {
                            assert(c == child.deep());
                            assert(cs.subrange(0, i + 1).drop_last() =~= cs.subrange(0, i as int));
                            assert(cs.subrange(0, i + 1).last() == c);
                            assert(exprs_fold(cs.subrange(0, i + 1)) is None);
                            lemma_exprs_fold_fail(cs, i + 1);
                        }
                        return Err(e);
                    },
                }
            },
            _ => {
                proof {
                    assert(c == child.deep());
                    assert(cs.subrange(0, i + 1).drop_last() =~= cs.subrange(0, i as int));
                    assert(cs.subrange(0, i + 1).last() == c);
                    assert(exprs_fold(cs.subrange(0, i + 1)) is None);
                    lemma_exprs_fold_fail(cs, i + 1);
                }
                return Err(ParseFailure::InternalInconsistency);
            },
        }
        i += 1;
        proof {
            assert(c == child.deep());
            assert(cs.subrange(0, i as int).drop_last() =~= cs.subrange(0, i - 1));
            assert(cs.subrange(0, i as int).last() == c);
            assert(expressions@.drop_last() =~= prev);
            assert(deep_exprs(expressions@) == deep_exprs(prev).push(expressions@.last().deep()));
        }
    }
    proof {
        assert(cs.subrange(0, n as int) =~= cs);
    }
    Ok(expressions)
}

/// Extracts a function declaration: visibility, name, optional parameter
/// list, optional return type names, and body.
pub fn parse(function: &ParseNode) -> (r: Result<Statement, ParseFailure>)
    ensures
        match r {
            Ok(s) => spec_function(function.deep()) == Some(s.deep()),
            Err(e) => {
                &&& spec_function(function.deep()) is None
                &&& e == ParseFailure::InternalInconsistency
            },
        },
{
    let mut public = false;
    let mut name = String::new();
    let mut parameters: Option<Vec<Parameter>> = None;
    let mut return_kinds: Option<Vec<String>> = None;
    let mut body: Vec<Expression> = Vec::new();
    proof {
        lemma_deep_nodes(function.children@);
    }
    let ghost cs = function.deep().children;
    let n = function.children.len();
    let mut i: usize = 0;
    while i < n
        invariant
            i <= n,
            n == function.children.len(),
            cs == function.deep().children,
            cs.len() == function.children@.len(),
            forall|j: int| 0 <= j < cs.len() ==> cs[j] == function.children@[j].deep(),
            function_fold(cs.subrange(0, i as int)) == Some(
                FunctionFieldsV {
                    public,
                    name: name@,
                    parameters: opt_params(parameters),
                    return_kinds: opt_names(return_kinds),
                    body: deep_exprs(body@),
                },
            ),
        decreases n - i,
    {
        let ghost c = cs[i as int];
        let child = &function.children[i];
        match child.tag {
            Tag::Public => {
                public = true;
            },
            Tag::Identifier => {
                name = child.text.clone();
            },
            Tag::FunctionParameterList => {
                parameters = parse_params(child);
            },
            Tag::Returns => {
                return_kinds = parse_returns(child);
            },
            Tag::ExpressionList => {
                match parse_expression_list(child) {
                    Ok(es) => {
                        body = es;
                    },
                    Err(e) => {
                        proof {
                            assert(c == child.deep());
                            assert(cs.subrange(0, i + 1).drop_last() =~= cs.subrange(0, i as int));
                            assert(cs.subrange(0, i + 1).last() == c);
                            assert(function_fold(cs.subrange(0, i + 1)) is None);
                            lemma_function_fold_fail(cs, i + 1);
                        }
                        return Err(e);
                    },
                }
            },
            _ => {},
        }
        i += 1;
        proof {
            assert(c == child.deep());
            assert(cs.subrange(0, i as int).drop_last() =~= cs.subrange(0, i - 1));
            assert(cs.subrange(0, i as int).last() == c);
        }
    }
    proof {
        assert(cs.subrange(0, n as int) =~= cs);
    }
    Ok(Statement::Function { public, name, parameters, return_kinds, body })
}

} // verus!
