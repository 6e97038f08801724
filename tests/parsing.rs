use scriptlang::parser::{generate_ast, BinOp, Node, NodeType, UnaryOp};

fn program(src: &str) -> Node {
    let p = generate_ast(src.to_string()).unwrap();
    assert_eq!(p.node_type, NodeType::Program);
    p
}

#[test]
fn multiplication_binds_tighter_than_addition() {
    let p = program("1+2*3");
    assert_eq!(p.body.len(), 1);
    let e = &p.body[0];
    assert_eq!(e.node_type, NodeType::BinaryExpr(BinOp::Add));
    assert_eq!(e.body[1].node_type, NodeType::BinaryExpr(BinOp::Mul));
}

#[test]
fn operators_of_one_tier_associate_left() {
    let p = program("1-2+3");
    let e = &p.body[0];
    assert_eq!(e.node_type, NodeType::BinaryExpr(BinOp::Add));
    assert_eq!(e.body[0].node_type, NodeType::BinaryExpr(BinOp::Sub));
}

#[test]
fn comparison_is_loosest() {
    let p = program("1 + 2 == 3 && true");
    let e = &p.body[0];
    assert_eq!(e.node_type, NodeType::BinaryExpr(BinOp::And));
    assert_eq!(e.body[0].node_type, NodeType::BinaryExpr(BinOp::Eq));
    assert_eq!(e.node_type.extract_binexp_operator(), Some(BinOp::And));
    assert_eq!(e.node_type.extract_unexp_operator(), None);
}

#[test]
fn not_applies_to_a_primary() {
    let p = program("!5 + 1");
    let e = &p.body[0];
    assert_eq!(e.node_type, NodeType::BinaryExpr(BinOp::Add));
    assert_eq!(e.body[0].node_type, NodeType::UnaryExpr(UnaryOp::Not));
    assert_eq!(e.body[0].node_type.extract_unexp_operator(), Some(UnaryOp::Not));
}

#[test]
fn conditional_chain_is_flat() {
    let p = program("if (a) { 1 } elseif (b) { 2 } else { 3 }");
    let kinds: Vec<NodeType> = p.body.iter().map(|n| n.node_type).collect();
    assert_eq!(kinds, vec![NodeType::If, NodeType::ElseIf, NodeType::Else]);
    assert_eq!(p.body[0].body.len(), 2);
    assert_eq!(p.body[0].body[1].node_type, NodeType::Scope);
    assert_eq!(p.body[2].body.len(), 1);
}

#[test]
fn declaration_and_assignment() {
    let p = program("let x = 1;\nx = 2");
    assert_eq!(p.body[0].node_type, NodeType::Declaration);
    assert_eq!(p.body[1].node_type, NodeType::EOL);
    assert_eq!(p.body[2].node_type, NodeType::EOL);
    assert_eq!(p.body[3].node_type, NodeType::Assignment);
    assert_eq!(p.body[3].body.len(), 1);
}

#[test]
fn loop_and_print() {
    let p = program("loop (i < 3) { print(i) }");
    assert_eq!(p.body[0].node_type, NodeType::Loop);
    let scope = &p.body[0].body[1];
    assert_eq!(scope.body[0].node_type, NodeType::Print);
}

#[test]
fn unclosed_block_is_an_error() {
    assert!(generate_ast("{ 1".to_string()).is_err());
    assert!(generate_ast("if (true) 1".to_string()).is_err());
    assert!(generate_ast("else 1".to_string()).is_err());
}
