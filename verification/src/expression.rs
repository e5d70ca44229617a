//! Expressions and the operator-sequence builder.
//!
//! A function body's expressions are kept as flat, order-preserving stacks
//! of operators and operands.  A parenthesized sub-expression becomes a
//! nested stack of the same shape; operator precedence and associativity are
//! not resolved at this layer and are left to a downstream consumer.

use vstd::prelude::*;
use vstd::string::StringExecFns;

use crate::ParseFailure;
use crate::string::{spec_string_value, parse as parse_string};
use crate::tree::{lemma_deep_nodes, NodeV, ParseNode, Tag};

verus! {

/// The closed set of operators an operator sequence can carry.  No
/// precedence or arity information is attached at this layer.
#[derive(Clone, Copy, Debug, PartialEq, Eq, Structural)]
pub enum Op {
    EqualTo,
    NotEqualTo,
    Add,
    Subtract,
    Pow,
    Multiply,
    Divide,
    GreaterThan,
    GreaterThanEqual,
    LessThan,
    LessThanEqual,
    LogicalAnd,
    LogicalOr,
    LogicalXor,
    LogicalNot,
    BitwiseAnd,
    BitwiseOr,
    BitwiseXor,
}

/// One operand or operator of an operator sequence.  Numeric literals are
/// enumerated here but no builder in this crate constructs them: the
/// numeric-literal production is not wired to any case, a gap kept on
/// purpose.
#[derive(Debug)]
pub enum OpSequenceItem {
    Operator { name: Op },
    Identifier { name: String },
    StringValue { value: String },
    BooleanValue { value: bool },
    NumericValue { value: i32 },
    FunctionCall { identifier: String, arguments: Vec<FunctionArgument> },
}

/// One entry of a stack: a single item, or a grouped sub-sequence kept as a
/// nested stack of the same shape.
#[derive(Debug)]
pub enum StackItem {
    Singleton { item: OpSequenceItem },
    NestedStack { root: Vec<StackItem> },
}

/// A call-site argument: an optional label for named-argument syntax, and
/// the argument's value as a stack.
#[derive(Debug)]
pub struct FunctionArgument {
    pub label: Option<String>,
    pub value: Vec<StackItem>,
}

/// A body-level expression: an assignment, a return statement, or a bare
/// operator sequence evaluated for effect.  `Value` is reserved for
/// non-operator literal forms and `Null` marks explicit absence; neither is
/// built by the walk.
#[derive(Debug)]
pub enum Expression {
    Assignment { identifier: String, kind: Option<String>, value: Vec<StackItem> },
    Stack { root: Vec<StackItem> },
    Return { root: Vec<StackItem> },
    Value { as_string: String },
    Null,
}

/// Mathematical value of an operator-sequence item.
pub enum OpSequenceItemV {
    Operator { name: Op },
    Identifier { name: Seq<char> },
    StringValue { value: Seq<char> },
    BooleanValue { value: bool },
    NumericValue { value: i32 },
    FunctionCall { identifier: Seq<char>, arguments: Seq<FunctionArgumentV> },
}

/// Mathematical value of a stack entry.
pub enum StackItemV {
    Singleton { item: OpSequenceItemV },
    NestedStack { root: Seq<StackItemV> },
}

/// Mathematical value of a call-site argument.
pub struct FunctionArgumentV {
    pub label: Option<Seq<char>>,
    pub value: Seq<StackItemV>,
}

/// Mathematical value of a body-level expression.
pub enum ExpressionV {
    Assignment { identifier: Seq<char>, kind: Option<Seq<char>>, value: Seq<StackItemV> },
    Stack { root: Seq<StackItemV> },
    Return { root: Seq<StackItemV> },
    Value { as_string: Seq<char> },
    Null,
}

/// The character sequence of an optional string.
pub open spec fn opt_text(o: Option<String>) -> Option<Seq<char>> {
    match o {
        Some(s) => Some(s@),
        None => None,
    }
}

impl OpSequenceItem {
    /// The item's mathematical value.
    pub open spec fn deep(self) -> OpSequenceItemV
        decreases self,
        via Self::deep_decreases
    {
        match self {
            OpSequenceItem::Operator { name } => OpSequenceItemV::Operator { name },
            OpSequenceItem::Identifier { name } => OpSequenceItemV::Identifier { name: name@ },
            OpSequenceItem::StringValue { value } => OpSequenceItemV::StringValue { value: value@ },
            OpSequenceItem::BooleanValue { value } => OpSequenceItemV::BooleanValue { value },
            OpSequenceItem::NumericValue { value } => OpSequenceItemV::NumericValue { value },
            OpSequenceItem::FunctionCall { identifier, arguments } => {
                OpSequenceItemV::FunctionCall {
                    identifier: identifier@,
                    arguments: deep_args(arguments@),
                }
            },
        }
    }

    #[via_fn]
    proof fn deep_decreases(self) {
        match self {
            OpSequenceItem::FunctionCall { identifier, arguments } => {
                assert(decreases_to!(self => arguments));
                assert(decreases_to!(arguments => arguments@));
            },
            _ => {},
        }
    }
}

impl StackItem {
    /// The entry's mathematical value.
    pub open spec fn deep(self) -> StackItemV
        decreases self,
        via Self::deep_decreases
    {
        match self {
            StackItem::Singleton { item } => StackItemV::Singleton { item: item.deep() },
            StackItem::NestedStack { root } => StackItemV::NestedStack { root: deep_stack(root@) },
        }
    }

    #[via_fn]
    proof fn deep_decreases(self) {
        match self {
            StackItem::NestedStack { root } => {
                assert(decreases_to!(self => root));
                assert(decreases_to!(root => root@));
            },
            _ => {},
        }
    }
}

impl FunctionArgument {
    /// The argument's mathematical value.
    pub open spec fn deep(self) -> FunctionArgumentV
        decreases self,
        via Self::deep_decreases
    {
        FunctionArgumentV { label: opt_text(self.label), value: deep_stack(self.value@) }
    }

    #[via_fn]
    proof fn deep_decreases(self) {
        assert(decreases_to!(self => self.value));
        assert(decreases_to!(self.value => self.value@));
    }
}

impl Expression {
    /// The expression's mathematical value.
    pub open spec fn deep(self) -> ExpressionV
        decreases self,
        via Self::deep_decreases
    {
        match self {
            Expression::Assignment { identifier, kind, value } => {
                ExpressionV::Assignment {
                    identifier: identifier@,
                    kind: opt_text(kind),
                    value: deep_stack(value@),
                }
            },
            Expression::Stack { root } => ExpressionV::Stack { root: deep_stack(root@) },
            Expression::Return { root } => ExpressionV::Return { root: deep_stack(root@) },
            Expression::Value { as_string } => ExpressionV::Value { as_string: as_string@ },
            Expression::Null => ExpressionV::Null,
        }
    }

    #[via_fn]
    proof fn deep_decreases(self) {
        match self {
            Expression::Assignment { identifier, kind, value } => {
                assert(decreases_to!(self => value));
                assert(decreases_to!(value => value@));
            },
            Expression::Stack { root } => {
                assert(decreases_to!(self => root));
                assert(decreases_to!(root => root@));
            },
            Expression::Return { root } => {
                assert(decreases_to!(self => root));
                assert(decreases_to!(root => root@));
            },
            _ => {},
        }
    }
}

/// Element-wise mathematical value of a sequence of stack entries.
pub open spec fn deep_stack(s: Seq<StackItem>) -> Seq<StackItemV>
    decreases s,
{
    if s.len() == 0 {
        Seq::empty()
    } else {
        deep_stack(s.drop_last()).push(s.last().deep())
    }
}

/// Element-wise mathematical value of a sequence of call-site arguments.
pub open spec fn deep_args(s: Seq<FunctionArgument>) -> Seq<FunctionArgumentV>
    decreases s,
{
    if s.len() == 0 {
        Seq::empty()
    } else {
        deep_args(s.drop_last()).push(s.last().deep())
    }
}

/// Element-wise mathematical value of a sequence of expressions.
pub open spec fn deep_exprs(s: Seq<Expression>) -> Seq<ExpressionV>
    decreases s,
{
    if s.len() == 0 {
        Seq::empty()
    } else {
        deep_exprs(s.drop_last()).push(s.last().deep())
    }
}

/// The one-to-one mapping from single-token operator productions to
/// operator members; any other production maps to nothing.
pub open spec fn spec_op_of_tag(t: Tag) -> Option<Op> {
    match t {
        Tag::OpEq => Some(Op::EqualTo),
        Tag::OpNeq => Some(Op::NotEqualTo),
        Tag::OpAdd => Some(Op::Add),
        Tag::OpSubtract => Some(Op::Subtract),
        Tag::OpPow => Some(Op::Pow),
        Tag::OpMultiply => Some(Op::Multiply),
        Tag::OpDivide => Some(Op::Divide),
        Tag::OpGt => Some(Op::GreaterThan),
        Tag::OpGte => Some(Op::GreaterThanEqual),
        Tag::OpLt => Some(Op::LessThan),
        Tag::OpLte => Some(Op::LessThanEqual),
        Tag::LogicAnd => Some(Op::LogicalAnd),
        Tag::LogicOr => Some(Op::LogicalOr),
        Tag::LogicXor => Some(Op::LogicalXor),
        Tag::LogicNot => Some(Op::LogicalNot),
        Tag::BitwiseAnd => Some(Op::BitwiseAnd),
        Tag::BitwiseOr => Some(Op::BitwiseOr),
        Tag::BitwiseXor => Some(Op::BitwiseXor),
        _ => None,
    }
}

/// No two operator productions map to the same operator member: the
/// token-to-operator mapping is one-to-one.
pub proof fn lemma_op_mapping_injective(t1: Tag, t2: Tag)
    ensures
        (spec_op_of_tag(t1) is Some && spec_op_of_tag(t1) == spec_op_of_tag(t2)) ==> t1 == t2,
{
}

/// Whether an operator-sequence child production is one the builder
/// recognizes; any other child is dropped from the stack without failing.
pub open spec fn recognized_child(t: Tag) -> bool {
    ||| t == Tag::StringLiteral
    ||| t == Tag::BooleanValue
    ||| t == Tag::Identifier
    ||| t == Tag::FunctionCall
    ||| t == Tag::OpSequence
    ||| spec_op_of_tag(t) is Some
}

/// The stack entries one child of an operator sequence contributes: one
/// entry for a recognized child (or a failure, for a malformed string or
/// boolean literal), no entry for an unrecognized one.
pub open spec fn spec_child_items(c: NodeV) -> Option<Seq<StackItemV>>
    decreases c, 2int,
{
    if c.tag == Tag::StringLiteral {
        match spec_string_value(c) {
            Some(value) => Some(
                seq![StackItemV::Singleton { item: OpSequenceItemV::StringValue { value } }],
            ),
            None => None,
        }
    } else if c.tag == Tag::BooleanValue {
        if c.text == "true"@ {
            Some(seq![StackItemV::Singleton { item: OpSequenceItemV::BooleanValue { value: true } }])
        } else if c.text == "false"@ {
            Some(
                seq![StackItemV::Singleton { item: OpSequenceItemV::BooleanValue { value: false } }],
            )
        } else {
            None
        }
    } else if c.tag == Tag::Identifier {
        Some(seq![StackItemV::Singleton { item: OpSequenceItemV::Identifier { name: c.text } }])
    } else if c.tag == Tag::FunctionCall {
        match spec_function_call(c) {
            Some(item) => Some(seq![StackItemV::Singleton { item }]),
            None => None,
        }
    } else if c.tag == Tag::OpSequence {
        match spec_stack(c) {
            Some(root) => Some(seq![StackItemV::NestedStack { root }]),
            None => None,
        }
    } else {
        match spec_op_of_tag(c.tag) {
            Some(op) => Some(
                seq![StackItemV::Singleton { item: OpSequenceItemV::Operator { name: op } }],
            ),
            None => Some(Seq::empty()),
        }
    }
}

/// The stack built from a prefix of an operator sequence's children, each
/// child appending the entries it contributes, in source order.
pub open spec fn spec_stack_children(cs: Seq<NodeV>) -> Option<Seq<StackItemV>>
    decreases cs, 0int,
{
    if cs.len() == 0 {
        Some(Seq::empty())
    } else {
        match spec_stack_children(cs.drop_last()) {
            None => None,
            Some(acc) => match spec_child_items(cs.last()) {
                None => None,
                Some(items) => Some(acc + items),
            },
        }
    }
}

/// The stack an operator-sequence node builds to.
pub open spec fn spec_stack(n: NodeV) -> Option<Seq<StackItemV>>
    decreases n, 1int,
{
    spec_stack_children(n.children)
}

/// The callee identifier and argument list a function-call node's children
/// build to, each visited in source order with later identifiers
/// overriding earlier ones.
pub open spec fn spec_call_fields(cs: Seq<NodeV>) -> Option<(Seq<char>, Seq<FunctionArgumentV>)>
    decreases cs, 0int,
{
    if cs.len() == 0 {
        Some((Seq::empty(), Seq::empty()))
    } else {
        match spec_call_fields(cs.drop_last()) {
            None => None,
            Some((identifier, arguments)) => {
                let c = cs.last();
                if c.tag == Tag::Identifier {
                    Some((c.text, arguments))
                } else if c.tag == Tag::FunctionArg {
                    match spec_fn_arg(c) {
                        None => None,
                        Some(a) => Some((identifier, arguments.push(a))),
                    }
                } else {
                    Some((identifier, arguments))
                }
            },
        }
    }
}

/// The call item a function-call node builds to.
pub open spec fn spec_function_call(n: NodeV) -> Option<OpSequenceItemV>
    decreases n, 1int,
{
    match spec_call_fields(n.children) {
        None => None,
        Some((identifier, arguments)) => Some(
            OpSequenceItemV::FunctionCall { identifier, arguments },
        ),
    }
}

/// The label and value a call-site argument's children build to.
pub open spec fn spec_arg_fields(cs: Seq<NodeV>) -> Option<(Option<Seq<char>>, Seq<StackItemV>)>
    decreases cs, 0int,
{
    if cs.len() == 0 {
        Some((None, Seq::empty()))
    } else {
        match spec_arg_fields(cs.drop_last()) {
            None => None,
            Some((label, value)) => {
                let c = cs.last();
                if c.tag == Tag::Label {
                    Some((Some(c.text), value))
                } else if c.tag == Tag::OpSequence {
                    match spec_stack(c) {
                        None => None,
                        Some(v) => Some((label, v)),
                    }
                } else {
                    Some((label, value))
                }
            },
        }
    }
}

/// The argument a call-site argument node builds to.
pub open spec fn spec_fn_arg(n: NodeV) -> Option<FunctionArgumentV>
    decreases n, 1int,
{
    match spec_arg_fields(n.children) {
        None => None,
        Some((label, value)) => Some(FunctionArgumentV { label, value }),
    }
}

/// Inserting an unrecognized child anywhere among an operator sequence's
/// children leaves the built stack unchanged.
proof fn lemma_stack_children_insert_skipped(cs: Seq<NodeV>, i: int, extra: NodeV)
    requires
        0 <= i <= cs.len(),
        !recognized_child(extra.tag),
    ensures
        spec_stack_children(cs.insert(i, extra)) == spec_stack_children(cs),
    decreases cs.len(),
{
    let cs2 = cs.insert(i, extra);
    assert(spec_child_items(extra) == Some(Seq::<StackItemV>::empty()));
    if i == cs.len() {
        assert(cs2.drop_last() =~= cs);
        assert(cs2.last() == extra);
        match spec_stack_children(cs) {
            Some(acc) => {
                assert(acc + Seq::<StackItemV>::empty() =~= acc);
            },
            None => {},
        }
    } else {
        assert(cs.len() > 0);
        assert(cs2.drop_last() =~= cs.drop_last().insert(i, extra));
        assert(cs2.last() == cs.last());
        lemma_stack_children_insert_skipped(cs.drop_last(), i, extra);
    }
}

/// Unknown-input tolerance: a child of an operator sequence whose
/// production is not in the recognized set is dropped from the resulting
/// stack without failing the rest of the build — the stack built with such
/// a child inserted at any position is the stack built without it, and one
/// fails exactly when the other does.  This is the one place a malformed
/// child is tolerated rather than treated as an internal-consistency
/// failure.
pub proof fn lemma_unrecognized_child_dropped(n: NodeV, i: int, extra: NodeV)
    requires
        0 <= i <= n.children.len(),
        !recognized_child(extra.tag),
    ensures
        spec_stack(NodeV { tag: n.tag, text: n.text, children: n.children.insert(i, extra) })
            == spec_stack(n),
{
    lemma_stack_children_insert_skipped(n.children, i, extra);
}

/// Once a prefix of an operator sequence's children fails to build, the
/// whole sequence fails.
proof fn lemma_stack_children_fail(cs: Seq<NodeV>, j: int)
    requires
        0 <= j <= cs.len(),
        spec_stack_children(cs.subrange(0, j)) is None,
    ensures
        spec_stack_children(cs) is None,
    decreases cs.len() - j,
{
    if j == cs.len() {
        assert(cs.subrange(0, j) =~= cs);
    } else {
        assert(cs.subrange(0, j + 1).drop_last() =~= cs.subrange(0, j));
        lemma_stack_children_fail(cs, j + 1);
    }
}

/// Once a prefix of a function call's children fails to build, the whole
/// call fails.
proof fn lemma_call_fields_fail(cs: Seq<NodeV>, j: int)
    requires
        0 <= j <= cs.len(),
        spec_call_fields(cs.subrange(0, j)) is None,
    ensures
        spec_call_fields(cs) is None,
    decreases cs.len() - j,
{
    if j == cs.len() {
        assert(cs.subrange(0, j) =~= cs);
    } else {
        assert(cs.subrange(0, j + 1).drop_last() =~= cs.subrange(0, j));
        lemma_call_fields_fail(cs, j + 1);
    }
}

/// Once a prefix of a call-site argument's children fails to build, the
/// whole argument fails.
proof fn lemma_arg_fields_fail(cs: Seq<NodeV>, j: int)
    requires
        0 <= j <= cs.len(),
        spec_arg_fields(cs.subrange(0, j)) is None,
    ensures
        spec_arg_fields(cs) is None,
    decreases cs.len() - j,
{
    if j == cs.len() {
        assert(cs.subrange(0, j) =~= cs);
    } else {
        assert(cs.subrange(0, j + 1).drop_last() =~= cs.subrange(0, j));
        lemma_arg_fields_fail(cs, j + 1);
    }
}

/// The operator member for a single-token operator production, if it is one.
fn op_of_tag(t: Tag) -> (r: Option<Op>)
    ensures
        r == spec_op_of_tag(t),
{
    match t {
        Tag::OpEq => Some(Op::EqualTo),
        Tag::OpNeq => Some(Op::NotEqualTo),
        Tag::OpAdd => Some(Op::Add),
        Tag::OpSubtract => Some(Op::Subtract),
        Tag::OpPow => Some(Op::Pow),
        Tag::OpMultiply => Some(Op::Multiply),
        Tag::OpDivide => Some(Op::Divide),
        Tag::OpGt => Some(Op::GreaterThan),
        Tag::OpGte => Some(Op::GreaterThanEqual),
        Tag::OpLt => Some(Op::LessThan),
        Tag::OpLte => Some(Op::LessThanEqual),
        Tag::LogicAnd => Some(Op::LogicalAnd),
        Tag::LogicOr => Some(Op::LogicalOr),
        Tag::LogicXor => Some(Op::LogicalXor),
        Tag::LogicNot => Some(Op::LogicalNot),
        Tag::BitwiseAnd => Some(Op::BitwiseAnd),
        Tag::BitwiseOr => Some(Op::BitwiseOr),
        Tag::BitwiseXor => Some(Op::BitwiseXor),
        _ => None,
    }
}

/// Converts an `op_sequence` production into a stack, one entry per
/// recognized child in source order: literals, identifiers and operators
/// become singletons, a function call becomes a singleton with its
/// arguments built recursively, and a nested `op_sequence` becomes a nested
/// stack, preserving the grouping without resolving it.  A child of any
/// other production is dropped from the stack without failing the build; a
/// malformed string or boolean literal is an internal-consistency failure.
pub fn parse_op_sequence(expr: &ParseNode) -> (r: Result<Vec<StackItem>, ParseFailure>)
    ensures
        match r {
            Ok(stack) => spec_stack(expr.deep()) == Some(deep_stack(stack@)),
            Err(e) => {
                &&& spec_stack(expr.deep()) is None
                &&& e == ParseFailure::InternalInconsistency
            },
        },
    decreases expr,
{
    let mut stack: Vec<StackItem> = Vec::new();
    proof {
        lemma_deep_nodes(expr.children@);
    }
    let ghost cs = expr.deep().children;
    let n = expr.children.len();
    let mut i: usize = 0;
    while i < n
        invariant
            i <= n,
            n == expr.children.len(),
            cs == expr.deep().children,
            cs.len() == expr.children@.len(),
            forall|j: int| 0 <= j < cs.len() ==> cs[j] == expr.children@[j].deep(),
            spec_stack_children(cs.subrange(0, i as int)) == Some(deep_stack(stack@)),
        decreases n - i,
    {
        let ghost prev = stack@;
        let ghost c = cs[i as int];
        let child = &expr.children[i];
        match child.tag {
            Tag::StringLiteral => {
                match parse_string(child) {
                    Ok(value) => {
                        stack.push(
                            StackItem::Singleton { item: OpSequenceItem::StringValue { value } },
                        );
                    },
                    Err(e) => {
                        proof {
                            assert(c == child.deep());
                            assert(cs.subrange(0, i + 1).drop_last() =~= cs.subrange(0, i as int));
                            assert(cs.subrange(0, i + 1).last() == c);
                            assert(spec_stack_children(cs.subrange(0, i + 1)) is None);
                            lemma_stack_children_fail(cs, i + 1);
                        }
                        return Err(e);
                    },
                }
            },
            Tag::BooleanValue => {
                let true_text = String::from_str("true");
                let false_text = String::from_str("false");
                if child.text == true_text {
                    stack.push(
                        StackItem::Singleton {
                            item: OpSequenceItem::BooleanValue { value: true },
                        },
                    );
                } else if child.text == false_text {
                    stack.push(
                        StackItem::Singleton {
                            item: OpSequenceItem::BooleanValue { value: false },
                        },
                    );
                } else {
                    proof {
                        assert(c == child.deep());
                        assert(cs.subrange(0, i + 1).drop_last() =~= cs.subrange(0, i as int));
                        assert(cs.subrange(0, i + 1).last() == c);
                        assert(spec_stack_children(cs.subrange(0, i + 1)) is None);
                        lemma_stack_children_fail(cs, i + 1);
                    }
                    return Err(ParseFailure::InternalInconsistency);
                }
            },
            Tag::Identifier => {
                stack.push(
                    StackItem::Singleton {
                        item: OpSequenceItem::Identifier { name: child.text.clone() },
                    },
                );
            },
            Tag::FunctionCall => {
                proof {
                    assert(decreases_to!(*expr => expr.children));
                    assert(decreases_to!(expr.children => expr.children@));
                }
                match parse_function_call(child) {
                    Ok(item) => {
                        stack.push(StackItem::Singleton { item });
                    },
                    Err(e) => {
                        proof {
                            assert(c == child.deep());
                            assert(cs.subrange(0, i + 1).drop_last() =~= cs.subrange(0, i as int));
                            assert(cs.subrange(0, i + 1).last() == c);
                            assert(spec_stack_children(cs.subrange(0, i + 1)) is None);
                            lemma_stack_children_fail(cs, i + 1);
                        }
                        return Err(e);
                    },
                }
            },
            Tag::OpSequence => {
                proof {
                    assert(decreases_to!(*expr => expr.children));
                    assert(decreases_to!(expr.children => expr.children@));
                }
                match parse_op_sequence(child) {
                    Ok(root) => {
                        stack.push(StackItem::NestedStack { root });
                    },
                    Err(e) => {
                        proof {
                            assert(c == child.deep());
                            assert(cs.subrange(0, i + 1).drop_last() =~= cs.subrange(0, i as int));
                            assert(cs.subrange(0, i + 1).last() == c);
                            assert(spec_stack_children(cs.subrange(0, i + 1)) is None);
                            lemma_stack_children_fail(cs, i + 1);
                        }
                        return Err(e);
                    },
                }
            },
            _ => {
                match op_of_tag(child.tag) {
                    Some(op) => {
                        stack.push(
                            StackItem::Singleton { item: OpSequenceItem::Operator { name: op } },
                        );
                    },
                    None => {},
                }
            },
        }
        i += 1;
        proof {
            assert(c == child.deep());
            assert(cs.subrange(0, i as int).drop_last() =~= cs.subrange(0, i - 1));
            assert(cs.subrange(0, i as int).last() == c);
            if stack@.len() > prev.len() {
                assert(stack@.drop_last() =~= prev);
                assert(spec_child_items(c) == Some(seq![stack@.last().deep()]));
                assert(deep_stack(stack@) == deep_stack(prev).push(stack@.last().deep()));
                assert(deep_stack(prev) + seq![stack@.last().deep()] =~= deep_stack(stack@));
            } else {
                assert(stack@ =~= prev);
                assert(spec_child_items(c) == Some(Seq::<StackItemV>::empty()));
                assert(deep_stack(prev) + Seq::<StackItemV>::empty() =~= deep_stack(stack@));
            }
        }
    }
    proof {
        assert(cs.subrange(0, n as int) =~= cs);
    }
    Ok(stack)
}

/// Extracts a function call's callee identifier and its arguments, each
/// argument built recursively; children of any other production are
/// skipped.
fn parse_function_call(fn_call: &ParseNode) -> (r: Result<OpSequenceItem, ParseFailure>)
    ensures
        match r {
            Ok(item) => spec_function_call(fn_call.deep()) == Some(item.deep()),
            Err(e) => {
                &&& spec_function_call(fn_call.deep()) is None
                &&& e == ParseFailure::InternalInconsistency
            },
        },
    decreases fn_call,
{
    let mut identifier = String::new();
    let mut arguments: Vec<FunctionArgument> = Vec::new();
    proof {
        lemma_deep_nodes(fn_call.children@);
    }
    let ghost cs = fn_call.deep().children;
    let n = fn_call.children.len();
    let mut i: usize = 0;
    while i < n
        invariant
            i <= n,
            n == fn_call.children.len(),
            cs == fn_call.deep().children,
            cs.len() == fn_call.children@.len(),
            forall|j: int| 0 <= j < cs.len() ==> cs[j] == fn_call.children@[j].deep(),
            spec_call_fields(cs.subrange(0, i as int)) == Some(
                (identifier@, deep_args(arguments@)),
            ),
        decreases n - i,
    {
        let ghost prev = arguments@;
        let ghost c = cs[i as int];
        let child = &fn_call.children[i];
        match child.tag {
            Tag::Identifier => {
                identifier = child.text.clone();
            },
            Tag::FunctionArg => {
                proof {
                    assert(decreases_to!(*fn_call => fn_call.children));
                    assert(decreases_to!(fn_call.children => fn_call.children@));
                }
                match parse_fn_arg(child) {
                    Ok(a) => {
                        arguments.push(a);
                    },
                    Err(e) => {
                        proof {
                            assert(cs.subrange(0, i + 1).drop_last() =~= cs.subrange(0, i as int));
                            assert(spec_call_fields(cs.subrange(0, i + 1)) is None);
                            lemma_call_fields_fail(cs, i + 1);
                        }
                        return Err(e);
                    },
                }
            },
            _ => {},
        }
        i += 1;
        proof {
            assert(cs.subrange(0, i as int).drop_last() =~= cs.subrange(0, i - 1));
            assert(cs.subrange(0, i as int).last() == c);
            if arguments@.len() > prev.len() {
                assert(arguments@.drop_last() =~= prev);
            } else {
                assert(arguments@ =~= prev);
            }
        }
    }
    proof {
        assert(cs.subrange(0, n as int) =~= cs);
    }
    Ok(OpSequenceItem::FunctionCall { identifier, arguments })
}

/// Extracts a call-site argument: an optional label and a recursively
/// built value stack; children of any other production are skipped.
fn parse_fn_arg(arg: &ParseNode) -> (r: Result<FunctionArgument, ParseFailure>)
    ensures
        match r {
            Ok(a) => spec_fn_arg(arg.deep()) == Some(a.deep()),
            Err(e) => {
                &&& spec_fn_arg(arg.deep()) is None
                &&& e == ParseFailure::InternalInconsistency
            },
        },
    decreases arg,
{
    let mut label: Option<String> = None;
    let mut value: Vec<StackItem> = Vec::new();
    proof {
        lemma_deep_nodes(arg.children@);
    }
    let ghost cs = arg.deep().children;
    let n = arg.children.len();
    let mut i: usize = 0;
    while i < n
        invariant
            i <= n,
            n == arg.children.len(),
            cs == arg.deep().children,
            cs.len() == arg.children@.len(),
            forall|j: int| 0 <= j < cs.len() ==> cs[j] == arg.children@[j].deep(),
            spec_arg_fields(cs.subrange(0, i as int)) == Some((opt_text(label), deep_stack(value@))),
        decreases n - i,
    {
        let ghost c = cs[i as int];
        let child = &arg.children[i];
        match child.tag {
            Tag::Label => {
                label = Some(child.text.clone());
            },
            Tag::OpSequence => {
                proof {
                    assert(decreases_to!(*arg => arg.children));
                    assert(decreases_to!(arg.children => arg.children@));
                }
                match parse_op_sequence(child) {
                    Ok(v) => {
                        value = v;
                    },
                    Err(e) => {
                        proof {
                            assert(cs.subrange(0, i + 1).drop_last() =~= cs.subrange(0, i as int));
                            assert(spec_arg_fields(cs.subrange(0, i + 1)) is None);
                            lemma_arg_fields_fail(cs, i + 1);
                        }
                        return Err(e);
                    },
                }
            },
            _ => {},
        }
        i += 1;
        proof {
            assert(cs.subrange(0, i as int).drop_last() =~= cs.subrange(0, i - 1));
            assert(cs.subrange(0, i as int).last() == c);
        }
    }
    proof {
        assert(cs.subrange(0, n as int) =~= cs);
    }
    Ok(FunctionArgument { label, value })
}

} // verus!
