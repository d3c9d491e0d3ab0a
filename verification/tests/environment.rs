use skcore::ast::{copy_names, copy_nodes, ASTNode, AssignOp, BinaryOp};
use skcore::env::ExecutionContext;
use skcore::table::Table;

fn text(t: &str) -> ASTNode {
    ASTNode::Text(t.to_string())
}

fn num(n: &str) -> ASTNode {
    ASTNode::Number(n.to_string())
}

fn name(n: &str) -> String {
    n.to_string()
}

#[test]
fn an_empty_table_holds_nothing() {
    let table = Table::new();
    assert!(!table.contains(&name("x")));
    assert_eq!(table.get(&name("x")), None);
}

#[test]
fn put_binds_and_replaces() {
    let mut table = Table::new();
    table.put(name("x"), num("1"));
    table.put(name("y"), num("2"));
    assert_eq!(table.get(&name("x")), Some(&num("1")));
    assert_eq!(table.get(&name("y")), Some(&num("2")));
    table.put(name("x"), text("t"));
    assert_eq!(table.get(&name("x")), Some(&text("t")));
    assert_eq!(table.get(&name("y")), Some(&num("2")));
    assert_eq!(table.entries.len(), 2);
}

#[test]
fn remove_unbinds_one_name() {
    let mut table = Table::new();
    table.put(name("x"), num("1"));
    table.put(name("y"), num("2"));
    table.put(name("z"), num("3"));
    table.remove(&name("y"));
    assert!(table.contains(&name("x")));
    assert!(!table.contains(&name("y")));
    assert_eq!(table.get(&name("z")), Some(&num("3")));
    table.remove(&name("nobody"));
    assert_eq!(table.entries.len(), 2);
}

#[test]
fn a_copy_of_a_table_is_independent() {
    let mut table = Table::new();
    table.put(name("x"), num("1"));
    let mut copy = table.copy();
    copy.put(name("x"), num("2"));
    copy.put(name("y"), num("3"));
    assert_eq!(table.get(&name("x")), Some(&num("1")));
    assert!(!table.contains(&name("y")));
    assert_eq!(copy.get(&name("x")), Some(&num("2")));
}

#[test]
fn an_unbound_name_reads_as_nothing() {
    let env = ExecutionContext::new();
    assert_eq!(env.read(&name("x")), ASTNode::Nothing);
    assert!(!env.is_bound(&name("x")));
}

#[test]
fn bind_moves_a_name_between_the_maps() {
    let mut env = ExecutionContext::new();
    env.bind(name("x"), num("5"));
    assert_eq!(env.read(&name("x")), num("5"));
    assert!(env.n_vars.contains(&name("x")));
    env.bind(name("x"), text("hi"));
    assert_eq!(env.read(&name("x")), text("hi"));
    assert!(!env.n_vars.contains(&name("x")));
    assert!(env.s_vars.contains(&name("x")));
    env.bind(name("x"), num("6"));
    assert_eq!(env.read(&name("x")), num("6"));
    assert!(!env.s_vars.contains(&name("x")));
}

#[test]
fn bind_ignores_other_values() {
    let mut env = ExecutionContext::new();
    env.bind(name("x"), num("5"));
    env.bind(name("x"), ASTNode::Boolean(true));
    env.bind(name("x"), ASTNode::Nothing);
    env.bind(name("y"), ASTNode::Boolean(true));
    assert_eq!(env.read(&name("x")), num("5"));
    assert!(!env.is_bound(&name("y")));
}

#[test]
fn change_needs_a_binding() {
    let mut env = ExecutionContext::new();
    env.change(name("x"), num("5"));
    assert!(!env.is_bound(&name("x")));
    env.bind(name("x"), num("5"));
    env.change(name("x"), text("hi"));
    assert_eq!(env.read(&name("x")), text("hi"));
}

#[test]
fn declare_erases_the_name_in_the_stored_declaration() {
    let mut env = ExecutionContext::new();
    env.declare(name("f"), vec![name("a")], vec![num("1")]);
    assert_eq!(
        env.functions.get(&name("f")),
        Some(&ASTNode::FunctionDecl(String::new(), vec![name("a")], vec![num("1")]))
    );
    env.declare(name("f"), vec![], vec![]);
    assert_eq!(env.functions.get(&name("f")), Some(&ASTNode::FunctionDecl(String::new(), vec![], vec![])));
}

#[test]
fn a_child_has_the_functions_and_no_variables() {
    let mut env = ExecutionContext::new();
    env.bind(name("x"), num("5"));
    env.bind(name("s"), text("t"));
    env.declare(name("f"), vec![], vec![]);
    let child = env.child();
    assert!(!child.is_bound(&name("x")));
    assert!(!child.is_bound(&name("s")));
    assert!(child.functions.contains(&name("f")));
}

#[test]
fn a_copy_has_everything_and_is_independent() {
    let mut env = ExecutionContext::new();
    env.bind(name("x"), num("5"));
    env.declare(name("f"), vec![], vec![]);
    let mut copy = env.copy();
    copy.bind(name("x"), num("6"));
    assert_eq!(env.read(&name("x")), num("5"));
    assert_eq!(copy.read(&name("x")), num("6"));
    assert!(copy.functions.contains(&name("f")));
}

#[test]
fn arguments_bind_from_literals_and_variables_only() {
    let mut caller = ExecutionContext::new();
    caller.bind(name("x"), num("7"));
    caller.bind(name("s"), text("t"));
    let params = vec![name("a"), name("b"), name("c"), name("d"), name("e"), name("f")];
    let args = vec![
        num("1"),
        text("two"),
        ASTNode::Variable(name("x")),
        ASTNode::Variable(name("s")),
        ASTNode::Variable(name("nobody")),
        ASTNode::Binary(BinaryOp::Add, Box::new(num("1")), Box::new(num("1"))),
    ];
    let mut callee = caller.child();
    callee.bind_arguments(&params, &args, &caller);
    assert_eq!(callee.read(&name("a")), num("1"));
    assert_eq!(callee.read(&name("b")), text("two"));
    assert_eq!(callee.read(&name("c")), num("7"));
    assert_eq!(callee.read(&name("d")), text("t"));
    assert_eq!(callee.read(&name("e")), ASTNode::Nothing);
    assert_eq!(callee.read(&name("f")), ASTNode::Nothing);
    assert!(!callee.is_bound(&name("x")));
}

#[test]
fn arguments_beyond_the_parameters_are_ignored() {
    let caller = ExecutionContext::new();
    let mut callee = caller.child();
    callee.bind_arguments(&vec![name("a")], &vec![num("1"), num("2")], &caller);
    assert_eq!(callee.read(&name("a")), num("1"));
    assert_eq!(callee.n_vars.entries.len(), 1);
}

#[test]
fn copies_of_nodes_are_equal_to_them() {
    let node = ASTNode::IfStatement(
        Box::new(ASTNode::Binary(BinaryOp::LtCheck, Box::new(ASTNode::Variable(name("x"))), Box::new(num("3")))),
        vec![ASTNode::Assign(AssignOp::AddEq, name("x"), Box::new(num("1"))), ASTNode::LoopBreak],
        true,
        vec![
            ASTNode::FunctionCall(name("print"), vec![text("t"), ASTNode::Boolean(false)]),
            ASTNode::FunctionDecl(name("f"), vec![name("a")], vec![ASTNode::Nothing]),
            ASTNode::ConditionalLoop(Box::new(ASTNode::Boolean(true)), vec![]),
            ASTNode::IncrementingLoop(name("i"), Box::new(num("0")), Box::new(num("1")), vec![]),
        ],
    );
    assert_eq!(node.copy(), node);
    assert_eq!(copy_nodes(&vec![node.copy(), num("1")]), vec![node, num("1")]);
    assert_eq!(copy_names(&vec![name("a"), name("b")]), vec![name("a"), name("b")]);
}
