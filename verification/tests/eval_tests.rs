use tinylang::interpreter::Interpreter;
use tinylang::lexer::tokenize;
use tinylang::node::{CmpKind, Node, NodeKind, OpKind};
use tinylang::parser::Parser;
use tinylang::value::Value;

fn leaf(kind: NodeKind) -> Node {
    Node { kind, children: vec![] }
}

fn parse_ok(src: &str) -> Node {
    let (tokens, lex_errors) = tokenize(src);
    assert!(lex_errors.is_empty());
    let mut parser = Parser::new(tokens);
    let tree = parser.parse();
    assert!(!parser.had_error());
    tree
}

fn run_source(src: &str) -> Result<(), String> {
    Interpreter::run(parse_ok(src))
}

fn op_expr(op: OpKind, lhs: Node, rhs: Node) -> Node {
    Node {
        kind: NodeKind::Block,
        children: vec![Node { kind: NodeKind::Oper(op), children: vec![lhs, rhs] }],
    }
}

fn cmp_expr(cmp: CmpKind, lhs: Node, rhs: Node) -> Node {
    Node {
        kind: NodeKind::Block,
        children: vec![Node { kind: NodeKind::Compare(cmp), children: vec![lhs, rhs] }],
    }
}

#[test]
fn declared_binding_is_visible_in_same_and_nested_scope_and_gone_after_pop() {
    let mut it = Interpreter::new();
    it.add_scope();
    it.process_node(&Node {
        kind: NodeKind::Block,
        children: vec![parse_ok("(let x 5)").children[0].clone()],
    })
    .unwrap();
    assert_eq!(it.get_value(&"x".to_string()), Some(Value::Number(5)));
    it.add_scope();
    assert_eq!(it.get_value(&"x".to_string()), Some(Value::Number(5)));
    it.remove_scope();
    it.remove_scope();
    assert_eq!(it.get_value(&"x".to_string()), None);
}

#[test]
fn constant_reassignment_fails_and_binding_keeps_its_value() {
    let mut it = Interpreter::new();
    it.add_scope();
    let program = parse_ok("(const x 1)");
    it.process_node(&program.children[0]).unwrap();
    let set = parse_ok("(set x 2)");
    let err = it.process_node(&set.children[0]).unwrap_err();
    assert_eq!(err, "Attempted to redefine a constant");
    assert_eq!(it.get_binding(&"x".to_string()), Some((Value::Number(1), true)));
}

#[test]
fn reassigning_an_undeclared_name_fails() {
    let mut it = Interpreter::new();
    it.add_scope();
    let set = parse_ok("(set y 1)");
    let err = it.process_node(&set.children[0]).unwrap_err();
    assert_eq!(err, "Attempted to redefine an undefined variable");
}

#[test]
fn arithmetic_on_mismatched_types_evaluates_to_nil() {
    let it = Interpreter::new();
    let expr = op_expr(
        OpKind::Plus,
        leaf(NodeKind::StrLit("a".to_string())),
        leaf(NodeKind::Num(1)),
    );
    assert_eq!(it.proc_value(&expr), Ok(Value::Nil));
    let div = op_expr(OpKind::Div, leaf(NodeKind::Num(1)), leaf(NodeKind::BoolLit(true)));
    assert_eq!(it.proc_value(&div), Ok(Value::Nil));
}

#[test]
fn arithmetic_on_numbers_computes() {
    let it = Interpreter::new();
    let sum = op_expr(OpKind::Plus, leaf(NodeKind::Num(1)), leaf(NodeKind::Num(2)));
    assert_eq!(it.proc_value(&sum), Ok(Value::Number(3)));
    let quot = op_expr(OpKind::Div, leaf(NodeKind::Num(7)), leaf(NodeKind::Num(2)));
    assert_eq!(it.proc_value(&quot), Ok(Value::Number(3)));
    let rem = op_expr(OpKind::Modulo, leaf(NodeKind::Num(7)), leaf(NodeKind::Num(2)));
    assert_eq!(it.proc_value(&rem), Ok(Value::Number(1)));
    let prod = op_expr(OpKind::Times, leaf(NodeKind::Num(6)), leaf(NodeKind::Num(-7)));
    assert_eq!(it.proc_value(&prod), Ok(Value::Number(-42)));
}

#[test]
fn division_by_zero_evaluates_to_nil() {
    let it = Interpreter::new();
    let div = op_expr(OpKind::Div, leaf(NodeKind::Num(1)), leaf(NodeKind::Num(0)));
    assert_eq!(it.proc_value(&div), Ok(Value::Nil));
    let rem = op_expr(OpKind::Modulo, leaf(NodeKind::Num(1)), leaf(NodeKind::Num(0)));
    assert_eq!(it.proc_value(&rem), Ok(Value::Nil));
}

#[test]
fn equality_across_types_is_false_and_inequality_true() {
    let it = Interpreter::new();
    let eq = cmp_expr(
        CmpKind::Equal,
        leaf(NodeKind::Num(1)),
        leaf(NodeKind::StrLit("1".to_string())),
    );
    assert_eq!(it.proc_value(&eq), Ok(Value::Bool(false)));
    let neq = cmp_expr(
        CmpKind::NotEqual,
        leaf(NodeKind::Num(1)),
        leaf(NodeKind::StrLit("1".to_string())),
    );
    assert_eq!(it.proc_value(&neq), Ok(Value::Bool(true)));
}

#[test]
fn same_type_comparisons_follow_the_rules() {
    let it = Interpreter::new();
    let eq = cmp_expr(CmpKind::Equal, leaf(NodeKind::Num(2)), leaf(NodeKind::Num(2)));
    assert_eq!(it.proc_value(&eq), Ok(Value::Bool(true)));
    let lt = cmp_expr(CmpKind::Less, leaf(NodeKind::Num(1)), leaf(NodeKind::Num(2)));
    assert_eq!(it.proc_value(&lt), Ok(Value::Bool(true)));
    let ge = cmp_expr(CmpKind::GreaterEqual, leaf(NodeKind::Num(1)), leaf(NodeKind::Num(2)));
    assert_eq!(it.proc_value(&ge), Ok(Value::Bool(false)));
    let ord_mismatch = cmp_expr(
        CmpKind::Less,
        leaf(NodeKind::Num(1)),
        leaf(NodeKind::BoolLit(true)),
    );
    assert_eq!(it.proc_value(&ord_mismatch), Ok(Value::Nil));
    let and = cmp_expr(CmpKind::And, leaf(NodeKind::BoolLit(true)), leaf(NodeKind::BoolLit(false)));
    assert_eq!(it.proc_value(&and), Ok(Value::Bool(false)));
}

#[test]
fn shadowing_scenario_inner_binding_ends_at_five_outer_stays_three() {
    let mut it = Interpreter::new();
    let let_a3 = parse_ok("(let a 3)").children[0].clone();
    let let_a4 = parse_ok("(let a 4)").children[0].clone();
    let set_a5 = parse_ok("(set a 5)").children[0].clone();
    it.add_scope();
    it.process_node(&let_a3).unwrap();
    it.add_scope();
    it.process_node(&let_a4).unwrap();
    it.process_node(&set_a5).unwrap();
    assert_eq!(it.get_binding(&"a".to_string()), Some((Value::Number(5), false)));
    it.remove_scope();
    assert_eq!(it.get_binding(&"a".to_string()), Some((Value::Number(3), false)));
    it.remove_scope();
}

#[test]
fn shadowing_program_runs_without_error() {
    assert_eq!(run_source("(scope (let a 3) (scope (let a 4) (set a 5)))"), Ok(()));
}

#[test]
fn declaration_without_any_scope_fails() {
    let err = run_source("(let x 1)").unwrap_err();
    assert_eq!(err, "No scopes available. Consider adding a scope to your program");
}

#[test]
fn redeclaring_a_name_in_the_same_scope_fails() {
    let err = run_source("(scope (let x 1) (let x 2))").unwrap_err();
    assert_eq!(
        err,
        "Attempted to redefine variable `x` that is already present in the current scope"
    );
}

#[test]
fn reading_an_undefined_variable_fails() {
    let err = run_source("(scope (let x y))").unwrap_err();
    assert_eq!(err, "Attempted to access an undefined variable");
}

#[test]
fn declaration_value_can_be_an_expression() {
    let mut it = Interpreter::new();
    it.add_scope();
    let decl = parse_ok("(let x (+ 20 22))").children[0].clone();
    it.process_node(&decl).unwrap();
    assert_eq!(it.get_value(&"x".to_string()), Some(Value::Number(42)));
}

#[test]
fn assignment_with_a_non_identifier_target_fails() {
    let mut it = Interpreter::new();
    it.add_scope();
    let bad = Node {
        kind: NodeKind::Block,
        children: vec![Node {
            kind: NodeKind::Assign(tinylang::node::AssignKind::Declare),
            children: vec![leaf(NodeKind::Num(1)), leaf(NodeKind::Num(2))],
        }],
    };
    let err = it.process_node(&bad).unwrap_err();
    assert_eq!(err, "Found an invalid identifier in variable declaration");
    let bad_set = Node {
        kind: NodeKind::Block,
        children: vec![Node {
            kind: NodeKind::Assign(tinylang::node::AssignKind::Reassign),
            children: vec![leaf(NodeKind::Num(1)), leaf(NodeKind::Num(2))],
        }],
    };
    let err = it.process_node(&bad_set).unwrap_err();
    assert_eq!(err, "Found an invalid identifier in variable edition");
}

#[test]
fn structurally_invalid_operand_fails_with_invalid_element() {
    let it = Interpreter::new();
    let bad = op_expr(OpKind::Plus, leaf(NodeKind::Cond), leaf(NodeKind::Num(1)));
    assert_eq!(it.proc_value(&bad), Err("Invalid element".to_string()));
}

#[test]
fn function_literal_evaluates_to_a_stored_function_value() {
    let mut it = Interpreter::new();
    it.add_scope();
    let body = leaf(NodeKind::Block);
    let fun = Node {
        kind: NodeKind::Block,
        children: vec![Node {
            kind: NodeKind::FuncLit,
            children: vec![
                Node {
                    kind: NodeKind::Block,
                    children: vec![leaf(NodeKind::Ident("p".to_string()))],
                },
                body.clone(),
            ],
        }],
    };
    match it.proc_value(&fun) {
        Ok(Value::Func(params, stored_body)) => {
            assert_eq!(params, vec!["p".to_string()]);
            assert_eq!(stored_body, body);
        }
        other => panic!("expected a function value, got {:?}", other),
    }
}

#[test]
fn function_literal_with_non_identifier_parameter_fails() {
    let it = Interpreter::new();
    let fun = Node {
        kind: NodeKind::Block,
        children: vec![Node {
            kind: NodeKind::FuncLit,
            children: vec![
                Node { kind: NodeKind::Block, children: vec![leaf(NodeKind::Num(3))] },
                leaf(NodeKind::Block),
            ],
        }],
    };
    assert_eq!(
        it.proc_value(&fun),
        Err("Invalid argument in function declaration".to_string())
    );
}

#[test]
fn full_pipeline_round_trip_runs_cleanly() {
    let source = "(scope (let a 1) (const b 2) (set a 3))";
    let (tokens, lex_errors) = tokenize(source);
    assert!(lex_errors.is_empty());
    let mut parser = Parser::new(tokens);
    let tree = parser.parse();
    assert!(!parser.had_error());
    assert!(parser.get_errors().is_empty());
    assert_eq!(Interpreter::run(tree), Ok(()));
}
