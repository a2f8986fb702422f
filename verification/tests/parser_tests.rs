use tinylang::lexer::tokenize;
use tinylang::node::{AssignKind, CmpKind, Node, NodeKind, OpKind};
use tinylang::parser::Parser;

fn parse_source(src: &str) -> (Node, bool, Vec<String>) {
    let (tokens, lex_errors) = tokenize(src);
    assert!(lex_errors.is_empty());
    let mut parser = Parser::new(tokens);
    let tree = parser.parse();
    (tree, parser.had_error(), parser.get_errors())
}

fn leaf(kind: NodeKind) -> Node {
    Node { kind, children: vec![] }
}

#[test]
fn parse_declaration_builds_assign_node() {
    let (tree, had, errors) = parse_source("(let x 5)");
    assert!(!had);
    assert!(errors.is_empty());
    let expected = Node {
        kind: NodeKind::Block,
        children: vec![Node {
            kind: NodeKind::Block,
            children: vec![Node {
                kind: NodeKind::Assign(AssignKind::Declare),
                children: vec![
                    leaf(NodeKind::Ident("x".to_string())),
                    leaf(NodeKind::Num(5)),
                ],
            }],
        }],
    };
    assert_eq!(tree, expected);
}

#[test]
fn parse_const_and_set_kinds() {
    let (tree, had, _) = parse_source("(const c 1 set c 2)");
    assert!(!had);
    let block = &tree.children[0];
    assert_eq!(block.children[0].kind, NodeKind::Assign(AssignKind::DeclareConst));
    assert_eq!(block.children[1].kind, NodeKind::Assign(AssignKind::Reassign));
}

#[test]
fn parse_scope_block_is_marked_scope() {
    let (tree, had, errors) = parse_source("(scope (let a 1))");
    assert!(!had);
    assert!(errors.is_empty());
    assert_eq!(tree.children[0].kind, NodeKind::Scope);
    assert_eq!(tree.children[0].children[0].kind, NodeKind::Block);
}

#[test]
fn parse_arithmetic_operator_takes_two_operands() {
    let (tree, had, _) = parse_source("(+ 1 2)");
    assert!(!had);
    let op = &tree.children[0].children[0];
    assert_eq!(op.kind, NodeKind::Oper(OpKind::Plus));
    assert_eq!(op.children.len(), 2);
    assert_eq!(op.children[0].kind, NodeKind::Num(1));
    assert_eq!(op.children[1].kind, NodeKind::Num(2));
}

#[test]
fn parse_comparison_accepts_identifier_operands() {
    let (tree, had, errors) = parse_source("(< x 2)");
    assert!(!had);
    assert!(errors.is_empty());
    let cmp = &tree.children[0].children[0];
    assert_eq!(cmp.kind, NodeKind::Compare(CmpKind::Less));
    assert_eq!(cmp.children[0].kind, NodeKind::Ident("x".to_string()));
    assert_eq!(cmp.children[1].kind, NodeKind::Num(2));
}

#[test]
fn parse_conditional_without_else_uses_placeholder() {
    let (tree, had, errors) = parse_source("(if (< 1 2) (let x 1))");
    assert!(!had);
    assert!(errors.is_empty());
    let cond = &tree.children[0].children[0];
    assert_eq!(cond.kind, NodeKind::Cond);
    assert_eq!(cond.children.len(), 3);
    assert_eq!(cond.children[0].kind, NodeKind::Block);
    assert_eq!(cond.children[1].kind, NodeKind::Block);
    assert_eq!(cond.children[2].kind, NodeKind::Empty);
}

#[test]
fn parse_conditional_with_else_keeps_both_branches() {
    let (tree, had, _) = parse_source("(if (< 1 2) (let x 1) (let x 2))");
    assert!(!had);
    let cond = &tree.children[0].children[0];
    assert_eq!(cond.children[2].kind, NodeKind::Block);
}

#[test]
fn parse_string_literal_strips_delimiters() {
    let (tree, had, _) = parse_source("(let s \"hi\")");
    assert!(!had);
    let assign = &tree.children[0].children[0];
    assert_eq!(assign.children[1].kind, NodeKind::StrLit("hi".to_string()));
}

#[test]
fn invalid_top_level_token_is_an_error_without_a_node() {
    let (tokens, _) = tokenize("x (let y 1)");
    let mut parser = Parser::new(tokens);
    let tree = parser.parse();
    assert!(parser.had_error());
    assert_eq!(parser.get_errors(), vec!["1 | Invalid token: x".to_string()]);
    assert_eq!(tree.children.len(), 1);
}

#[test]
fn malformed_operand_yields_placeholder_and_parsing_continues() {
    let (tokens, _) = tokenize("(+ let 2 let z 3)");
    let mut parser = Parser::new(tokens);
    let tree = parser.parse();
    assert!(parser.had_error());
    let block = &tree.children[0];
    let op = &block.children[0];
    assert_eq!(op.children[0].kind, NodeKind::Empty);
    assert_eq!(op.children[1].kind, NodeKind::Num(2));
    assert_eq!(block.children[1].kind, NodeKind::Assign(AssignKind::Declare));
}

#[test]
fn accepted_constructs_parse_without_errors() {
    let source = "(let a 1 const b 2 set a 3)\n(scope (let c (+ 1 2)) (< c 5))\n(if (= a 1) (set a 2) (set a 3))\n(~ \"x\" 'y')\n(and true false)";
    let (_, had, errors) = parse_source(source);
    assert!(!had);
    assert!(errors.is_empty());
}
