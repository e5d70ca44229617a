use forge::custom_type;
use forge::expression::{Op, OpSequenceItem, StackItem};
use forge::function;
use forge::import;
use forge::module;
use forge::parse_str;
use forge::statement::{self, Statement};
use forge::string;
use forge::tree::{ParseNode, Tag};
use forge::ParseFailure;

fn leaf(tag: Tag, text: &str) -> ParseNode {
    ParseNode::leaf(tag, String::from(text))
}

fn node(tag: Tag, children: Vec<ParseNode>) -> ParseNode {
    ParseNode::new(tag, String::new(), children)
}

fn string_literal(text: &str) -> ParseNode {
    node(Tag::StringLiteral, vec![leaf(Tag::StringText, text)])
}

fn import_node(path: &str, alias: Option<&str>) -> ParseNode {
    let mut children = vec![string_literal(path)];
    if let Some(a) = alias {
        children.push(leaf(Tag::Identifier, a));
    }
    node(Tag::Import, children)
}

fn op_item(item: &StackItem) -> Op {
    match item {
        StackItem::Singleton { item: OpSequenceItem::Operator { name } } => *name,
        _ => panic!("expected an operator"),
    }
}

fn identifier_name(item: &StackItem) -> &str {
    match item {
        StackItem::Singleton { item: OpSequenceItem::Identifier { name } } => name.as_str(),
        _ => panic!("expected an identifier"),
    }
}

#[test]
fn import_name_from_path() {
    let s = import::parse(&import_node("types/Apple.fe", None)).unwrap();
    match s {
        Statement::Import { path, name, alias } => {
            assert_eq!(path, "types/Apple.fe");
            assert_eq!(name, "Apple");
            assert!(alias.is_none());
        },
        _ => panic!("expected an import"),
    }
}

#[test]
fn import_name_from_alias() {
    let s = import::parse(&import_node("types/Apple.fe", Some("Fruit"))).unwrap();
    match s {
        Statement::Import { path, name, alias } => {
            assert_eq!(path, "types/Apple.fe");
            assert_eq!(name, "Fruit");
            assert_eq!(alias.as_deref(), Some("Fruit"));
        },
        _ => panic!("expected an import"),
    }
}

#[test]
fn import_name_keeps_leading_dot() {
    let s = import::parse(&import_node(".hidden", None)).unwrap();
    match s {
        Statement::Import { name, .. } => assert_eq!(name, ".hidden"),
        _ => panic!("expected an import"),
    }
}

#[test]
fn import_name_strips_last_extension_only() {
    let s = import::parse(&import_node("dir/a.b.c.fe", None)).unwrap();
    match s {
        Statement::Import { name, .. } => assert_eq!(name, "a.b.c"),
        _ => panic!("expected an import"),
    }
}

#[test]
fn import_without_base_name_fails() {
    let r = import::parse(&import_node("types/", None));
    assert_eq!(r.unwrap_err(), ParseFailure::InternalInconsistency);
}

#[test]
fn import_without_path_but_with_alias_succeeds() {
    let s = import::parse(&node(Tag::Import, vec![leaf(Tag::Identifier, "Thing")])).unwrap();
    match s {
        Statement::Import { path, name, .. } => {
            assert_eq!(path, "");
            assert_eq!(name, "Thing");
        },
        _ => panic!("expected an import"),
    }
}

#[test]
fn string_extraction_unwraps_inner_text() {
    let s = string::parse(&string_literal("hello world")).unwrap();
    assert_eq!(s, "hello world");
}

#[test]
fn string_extraction_without_inner_child_fails() {
    let r = string::parse(&node(Tag::StringLiteral, vec![]));
    assert_eq!(r.unwrap_err(), ParseFailure::InternalInconsistency);
}

#[test]
fn string_extraction_with_foreign_child_fails() {
    let r = string::parse(&node(Tag::StringLiteral, vec![leaf(Tag::Identifier, "x")]));
    assert_eq!(r.unwrap_err(), ParseFailure::InternalInconsistency);
}

fn operator_tags() -> Vec<(Tag, Op)> {
    vec![
    (Tag::OpEq, Op::EqualTo),
    (Tag::OpNeq, Op::NotEqualTo),
    (Tag::OpAdd, Op::Add),
    (Tag::OpSubtract, Op::Subtract),
    (Tag::OpPow, Op::Pow),
    (Tag::OpMultiply, Op::Multiply),
    (Tag::OpDivide, Op::Divide),
    (Tag::OpGt, Op::GreaterThan),
    (Tag::OpGte, Op::GreaterThanEqual),
    (Tag::OpLt, Op::LessThan),
    (Tag::OpLte, Op::LessThanEqual),
    (Tag::LogicAnd, Op::LogicalAnd),
    (Tag::LogicOr, Op::LogicalOr),
    (Tag::LogicXor, Op::LogicalXor),
    (Tag::LogicNot, Op::LogicalNot),
    (Tag::BitwiseAnd, Op::BitwiseAnd),
    (Tag::BitwiseOr, Op::BitwiseOr),
        (Tag::BitwiseXor, Op::BitwiseXor),
    ]
}

#[test]
fn each_operator_token_maps_to_its_member() {
    for (tag, expected) in operator_tags() {
        let stack =
            forge::expression::parse_op_sequence(&node(Tag::OpSequence, vec![leaf(tag, "")]))
                .unwrap();
        assert_eq!(stack.len(), 1);
        assert_eq!(op_item(&stack[0]), expected);
    }
}

#[test]
fn no_two_operator_tokens_collide() {
    let tags = operator_tags();
    for (i, (_, a)) in tags.iter().enumerate() {
        for (j, (_, b)) in tags.iter().enumerate() {
            if i != j {
                assert!(a != b);
            }
        }
    }
}

#[test]
fn grouping_is_preserved_as_nested_stack() {
    // (a + b) * c
    let tree = node(
        Tag::OpSequence,
        vec![
            node(
                Tag::OpSequence,
                vec![leaf(Tag::Identifier, "a"), leaf(Tag::OpAdd, "+"), leaf(Tag::Identifier, "b")],
            ),
            leaf(Tag::OpMultiply, "*"),
            leaf(Tag::Identifier, "c"),
        ],
    );
    let stack = forge::expression::parse_op_sequence(&tree).unwrap();
    assert_eq!(stack.len(), 3);
    match &stack[0] {
        StackItem::NestedStack { root } => {
            assert_eq!(root.len(), 3);
            assert_eq!(identifier_name(&root[0]), "a");
            assert_eq!(op_item(&root[1]), Op::Add);
            assert_eq!(identifier_name(&root[2]), "b");
        },
        _ => panic!("expected a nested stack for the grouped sub-expression"),
    }
    assert_eq!(op_item(&stack[1]), Op::Multiply);
    assert_eq!(identifier_name(&stack[2]), "c");
}

#[test]
fn unknown_op_sequence_child_is_dropped() {
    let tree = node(
        Tag::OpSequence,
        vec![
            leaf(Tag::Identifier, "a"),
            leaf(Tag::NumericValue, "42"),
            leaf(Tag::OpAdd, "+"),
            leaf(Tag::Identifier, "b"),
        ],
    );
    let stack = forge::expression::parse_op_sequence(&tree).unwrap();
    assert_eq!(stack.len(), 3);
    assert_eq!(identifier_name(&stack[0]), "a");
    assert_eq!(op_item(&stack[1]), Op::Add);
    assert_eq!(identifier_name(&stack[2]), "b");
}

#[test]
fn boolean_literals_build_values() {
    let tree = node(
        Tag::OpSequence,
        vec![leaf(Tag::BooleanValue, "true"), leaf(Tag::BooleanValue, "false")],
    );
    let stack = forge::expression::parse_op_sequence(&tree).unwrap();
    assert_eq!(stack.len(), 2);
    match (&stack[0], &stack[1]) {
        (
            StackItem::Singleton { item: OpSequenceItem::BooleanValue { value: a } },
            StackItem::Singleton { item: OpSequenceItem::BooleanValue { value: b } },
        ) => {
            assert!(*a);
            assert!(!*b);
        },
        _ => panic!("expected boolean values"),
    }
}

#[test]
fn malformed_boolean_literal_fails() {
    let tree = node(Tag::OpSequence, vec![leaf(Tag::BooleanValue, "maybe")]);
    let r = forge::expression::parse_op_sequence(&tree);
    assert_eq!(r.unwrap_err(), ParseFailure::InternalInconsistency);
}

#[test]
fn string_literal_in_sequence_builds_string_value() {
    let tree = node(Tag::OpSequence, vec![string_literal("abc")]);
    let stack = forge::expression::parse_op_sequence(&tree).unwrap();
    match &stack[0] {
        StackItem::Singleton { item: OpSequenceItem::StringValue { value } } => {
            assert_eq!(value, "abc");
        },
        _ => panic!("expected a string value"),
    }
}

#[test]
fn function_call_captures_labels_and_arguments() {
    let tree = node(
        Tag::OpSequence,
        vec![
            node(
                Tag::FunctionCall,
                vec![
                    leaf(Tag::Identifier, "f"),
                    node(
                        Tag::FunctionArg,
                        vec![
                            leaf(Tag::Label, "x"),
                            node(Tag::OpSequence, vec![leaf(Tag::Identifier, "y")]),
                        ],
                    ),
                    node(
                        Tag::FunctionArg,
                        vec![node(Tag::OpSequence, vec![leaf(Tag::BooleanValue, "true")])],
                    ),
                ],
            ),
        ],
    );
    let stack = forge::expression::parse_op_sequence(&tree).unwrap();
    assert_eq!(stack.len(), 1);
    match &stack[0] {
        StackItem::Singleton { item: OpSequenceItem::FunctionCall { identifier, arguments } } => {
            assert_eq!(identifier, "f");
            assert_eq!(arguments.len(), 2);
            assert_eq!(arguments[0].label.as_deref(), Some("x"));
            assert_eq!(identifier_name(&arguments[0].value[0]), "y");
            assert!(arguments[1].label.is_none());
        },
        _ => panic!("expected a function call"),
    }
}

fn add_function_node() -> ParseNode {
    // fn add(a: Int, b: Int): Int { return a + b }, public
    node(
        Tag::Function,
        vec![
            leaf(Tag::Public, "public"),
            leaf(Tag::Identifier, "add"),
            node(
                Tag::FunctionParameterList,
                vec![
                    node(
                        Tag::FunctionParameter,
                        vec![leaf(Tag::Identifier, "a"), leaf(Tag::Kind, "Int")],
                    ),
                    node(
                        Tag::FunctionParameter,
                        vec![leaf(Tag::Identifier, "b"), leaf(Tag::Kind, "Int")],
                    ),
                ],
            ),
            node(Tag::Returns, vec![leaf(Tag::Kind, "Int")]),
            node(
                Tag::ExpressionList,
                vec![
                    node(
                        Tag::ReturnStmt,
                        vec![
                            node(
                                Tag::OpSequence,
                                vec![
                                    leaf(Tag::Identifier, "a"),
                                    leaf(Tag::OpAdd, "+"),
                                    leaf(Tag::Identifier, "b"),
                                ],
                            ),
                        ],
                    ),
                ],
            ),
        ],
    )
}

#[test]
fn function_shape_is_captured() {
    let s = function::parse(&add_function_node()).unwrap();
    match s {
        Statement::Function { public, name, parameters, return_kinds, body } => {
            assert!(public);
            assert_eq!(name, "add");
            let ps = parameters.unwrap();
            assert_eq!(ps.len(), 2);
            assert_eq!(ps[0].name, "a");
            assert_eq!(ps[0].kind, "Int");
            assert_eq!(ps[1].name, "b");
            assert_eq!(ps[1].kind, "Int");
            assert_eq!(return_kinds.unwrap(), vec![String::from("Int")]);
            assert_eq!(body.len(), 1);
            match &body[0] {
                forge::expression::Expression::Return { root } => {
                    assert_eq!(root.len(), 3);
                    assert_eq!(identifier_name(&root[0]), "a");
                    assert_eq!(op_item(&root[1]), Op::Add);
                    assert_eq!(identifier_name(&root[2]), "b");
                },
                _ => panic!("expected a return expression"),
            }
        },
        _ => panic!("expected a function"),
    }
}

#[test]
fn assignment_captures_kind_and_value() {
    let tree = node(
        Tag::Assignment,
        vec![
            leaf(Tag::Identifier, "x"),
            leaf(Tag::Kind, "Int"),
            node(Tag::OpSequence, vec![leaf(Tag::Identifier, "y")]),
        ],
    );
    let e = function::parse_assignment(&tree).unwrap();
    match e {
        forge::expression::Expression::Assignment { identifier, kind, value } => {
            assert_eq!(identifier, "x");
            assert_eq!(kind.as_deref(), Some("Int"));
            assert_eq!(identifier_name(&value[0]), "y");
        },
        _ => panic!("expected an assignment"),
    }
}

#[test]
fn return_stmt_with_foreign_child_fails() {
    let tree = node(Tag::ReturnStmt, vec![leaf(Tag::Identifier, "x")]);
    let r = function::parse_return_stmt(&tree);
    assert_eq!(r.unwrap_err(), ParseFailure::InternalInconsistency);
}

#[test]
fn expression_list_with_foreign_child_fails() {
    let tree = node(Tag::ExpressionList, vec![leaf(Tag::Kind, "Int")]);
    let r = function::parse_expression_list(&tree);
    assert_eq!(r.unwrap_err(), ParseFailure::InternalInconsistency);
}

#[test]
fn custom_type_captures_attributes_in_order() {
    let tree = node(
        Tag::CustomType,
        vec![
            leaf(Tag::Public, "public"),
            leaf(Tag::Identifier, "Point"),
            node(Tag::TypeAttribute, vec![leaf(Tag::Identifier, "x"), leaf(Tag::Kind, "Int")]),
            node(Tag::TypeAttribute, vec![leaf(Tag::Identifier, "y"), leaf(Tag::Kind, "Int")]),
        ],
    );
    let s = custom_type::parse(&tree);
    match s {
        Statement::Type { public, name, attributes } => {
            assert!(public);
            assert_eq!(name, "Point");
            assert_eq!(
                attributes,
                vec![
                    (String::from("x"), String::from("Int")),
                    (String::from("y"), String::from("Int")),
                ]
            );
        },
        _ => panic!("expected a type"),
    }
}

#[test]
fn duplicate_attribute_names_pass_through() {
    let tree = node(
        Tag::CustomType,
        vec![
            leaf(Tag::Identifier, "Odd"),
            node(Tag::TypeAttribute, vec![leaf(Tag::Identifier, "x"), leaf(Tag::Kind, "Int")]),
            node(Tag::TypeAttribute, vec![leaf(Tag::Identifier, "x"), leaf(Tag::Kind, "Text")]),
        ],
    );
    match custom_type::parse(&tree) {
        Statement::Type { public, attributes, .. } => {
            assert!(!public);
            assert_eq!(attributes.len(), 2);
            assert_eq!(attributes[0].0, "x");
            assert_eq!(attributes[1].0, "x");
        },
        _ => panic!("expected a type"),
    }
}

#[test]
fn statement_without_recognized_child_is_error_sentinel() {
    let s = statement::parse(&node(Tag::Statement, vec![leaf(Tag::Kind, "Int")])).unwrap();
    assert!(matches!(s, Statement::Error));
}

fn module_node(statements: Vec<ParseNode>) -> ParseNode {
    let wrapped = statements.into_iter().map(|s| node(Tag::Statement, vec![s])).collect();
    node(Tag::Module, wrapped)
}

#[test]
fn parsing_twice_builds_identical_modules() {
    let m1 = parse_str(
        "demo",
        &module_node(vec![import_node("types/Apple.fe", None), add_function_node()]),
    )
    .unwrap();
    let m2 = parse_str(
        "demo",
        &module_node(vec![import_node("types/Apple.fe", None), add_function_node()]),
    )
    .unwrap();
    assert_eq!(format!("{:?}", m1), format!("{:?}", m2));
}

#[test]
fn last_write_wins_on_shared_names() {
    let first = node(Tag::Function, vec![leaf(Tag::Identifier, "dup")]);
    let second = node(Tag::Function, vec![leaf(Tag::Public, "public"), leaf(Tag::Identifier, "dup")]);
    let m = parse_str("demo", &module_node(vec![first, second])).unwrap();
    assert_eq!(m.environment.len(), 1);
    assert_eq!(m.environment[0].0, "dup");
    match &m.environment[0].1 {
        Statement::Function { public, name, .. } => {
            assert_eq!(name, "dup");
            assert!(*public, "the later declaration must replace the earlier one");
        },
        _ => panic!("expected a function"),
    }
}

#[test]
fn module_statement_with_error_sentinel_fails() {
    let tree = node(Tag::Module, vec![node(Tag::Statement, vec![])]);
    let r = module::parse("demo", &tree);
    assert_eq!(r.unwrap_err(), ParseFailure::InternalInconsistency);
}

#[test]
fn module_with_foreign_child_fails() {
    let tree = node(Tag::Module, vec![leaf(Tag::Identifier, "x")]);
    let r = module::parse("demo", &tree);
    assert_eq!(r.unwrap_err(), ParseFailure::InternalInconsistency);
}

#[test]
fn parse_str_rejects_non_module_root() {
    let r = parse_str("demo", &leaf(Tag::Identifier, "x"));
    assert_eq!(r.unwrap_err(), ParseFailure::InternalInconsistency);
}

#[test]
fn empty_module_has_empty_environment() {
    let m = parse_str("empty", &node(Tag::Module, vec![])).unwrap();
    assert_eq!(m.name, "empty");
    assert!(m.environment.is_empty());
    assert!(m.entry().is_none());
}

#[test]
fn module_accessors_partition_the_environment() {
    let main_fn = node(
        Tag::Function,
        vec![leaf(Tag::Identifier, "main"), node(Tag::ExpressionList, vec![])],
    );
    let m = parse_str(
        "demo",
        &module_node(vec![
            import_node("types/Apple.fe", None),
            node(
                Tag::CustomType,
                vec![leaf(Tag::Identifier, "Point")],
            ),
            main_fn,
            add_function_node(),
        ]),
    )
    .unwrap();

    let entry = m.entry().expect("main must be the entry point");
    assert!(matches!(entry, Statement::Function { .. }));

    let imports = m.imports().unwrap();
    assert_eq!(imports.len(), 1);
    match imports[0] {
        Statement::Import { name, .. } => assert_eq!(name, "Apple"),
        _ => panic!("expected an import"),
    }

    let functions = m.functions().unwrap();
    assert_eq!(functions.len(), 1, "main must not be listed among the functions");
    match functions[0] {
        Statement::Function { name, .. } => assert_eq!(name, "add"),
        _ => panic!("expected a function"),
    }

    let types = m.types().unwrap();
    assert_eq!(types.len(), 1);
    match types[0] {
        Statement::Type { name, .. } => assert_eq!(name, "Point"),
        _ => panic!("expected a type"),
    }
}

#[test]
fn parameter_label_is_captured() {
    let tree = node(
        Tag::Function,
        vec![
            leaf(Tag::Identifier, "greet"),
            node(
                Tag::FunctionParameterList,
                vec![
                    node(
                        Tag::FunctionParameter,
                        vec![
                            leaf(Tag::Label, "to"),
                            leaf(Tag::Identifier, "person"),
                            leaf(Tag::Kind, "Text"),
                        ],
                    ),
                ],
            ),
        ],
    );
    match function::parse(&tree).unwrap() {
        Statement::Function { public, parameters, .. } => {
            assert!(!public);
            let ps = parameters.unwrap();
            assert_eq!(ps[0].label, "to");
            assert_eq!(ps[0].name, "person");
            assert_eq!(ps[0].kind, "Text");
        },
        _ => panic!("expected a function"),
    }
}

#[test]
fn bare_op_sequence_becomes_stack_expression() {
    let tree = node(
        Tag::ExpressionList,
        vec![
            node(
                Tag::OpSequence,
                vec![
                    node(
                        Tag::FunctionCall,
                        vec![leaf(Tag::Identifier, "log")],
                    ),
                ],
            ),
        ],
    );
    let body = function::parse_expression_list(&tree).unwrap();
    assert_eq!(body.len(), 1);
    match &body[0] {
        forge::expression::Expression::Stack { root } => {
            assert_eq!(root.len(), 1);
            match &root[0] {
                StackItem::Singleton {
                    item: OpSequenceItem::FunctionCall { identifier, arguments },
                } => {
                    assert_eq!(identifier, "log");
                    assert!(arguments.is_empty());
                },
                _ => panic!("expected a function call"),
            }
        },
        _ => panic!("expected a bare stack expression"),
    }
}
