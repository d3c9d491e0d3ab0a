use skcore::ast::{ASTNode, AssignOp, BinaryOp};
use skcore::machine::{ExecError, Machine, Reply, Request};

fn text(t: &str) -> ASTNode {
    ASTNode::Text(t.to_string())
}

fn num(n: &str) -> ASTNode {
    ASTNode::Number(n.to_string())
}

fn var(name: &str) -> ASTNode {
    ASTNode::Variable(name.to_string())
}

fn call(name: &str, args: Vec<ASTNode>) -> ASTNode {
    ASTNode::FunctionCall(name.to_string(), args)
}

fn binary(op: BinaryOp, lhs: ASTNode, rhs: ASTNode) -> ASTNode {
    ASTNode::Binary(op, Box::new(lhs), Box::new(rhs))
}

fn assign(op: AssignOp, name: &str, value: ASTNode) -> ASTNode {
    ASTNode::Assign(op, name.to_string(), Box::new(value))
}

fn loaded(node: ASTNode) -> Machine {
    let mut machine = Machine::new();
    machine.load(node);
    machine
}

/// Steps until the machine asks for something.
fn ask(machine: &mut Machine, reply: Reply) -> Request {
    machine.steps(reply, 1000)
}

#[test]
fn a_new_machine_is_idle_and_done() {
    let mut machine = Machine::new();
    assert!(machine.is_idle());
    assert_eq!(machine.step(Reply::Nothing), Request::Done(ASTNode::Nothing));
    assert_eq!(machine.step(Reply::Value(num("1"))), Request::Done(num("1")));
    assert!(machine.is_idle());
}

#[test]
fn a_literal_takes_one_step() {
    let mut machine = loaded(num("4"));
    assert!(!machine.is_idle());
    assert_eq!(machine.step(Reply::Nothing), Request::Continue);
    assert!(machine.is_idle());
    assert_eq!(machine.step(Reply::Nothing), Request::Done(num("4")));
}

#[test]
fn the_sum_of_two_numbers_is_asked_for() {
    let mut machine = loaded(binary(BinaryOp::Add, num("1"), num("2")));
    assert_eq!(machine.step(Reply::Nothing), Request::Continue);
    assert_eq!(machine.step(Reply::Nothing), Request::Continue);
    assert_eq!(machine.step(Reply::Nothing), Request::Continue);
    assert_eq!(machine.step(Reply::Nothing), Request::Continue);
    assert_eq!(machine.step(Reply::Nothing), Request::Arith(BinaryOp::Add, "1".to_string(), "2".to_string()));
    assert_eq!(machine.step(Reply::Value(num("3"))), Request::Done(num("3")));
}

#[test]
fn every_operation_on_numbers_is_asked_for() {
    let ops = [
        BinaryOp::Add,
        BinaryOp::Sub,
        BinaryOp::Mul,
        BinaryOp::Div,
        BinaryOp::Modulo,
        BinaryOp::EqCheck,
        BinaryOp::NeqCheck,
        BinaryOp::GtCheck,
        BinaryOp::LtCheck,
        BinaryOp::GteCheck,
        BinaryOp::LteCheck,
    ];
    for op in ops {
        let mut machine = loaded(binary(op, num("6"), num("3")));
        assert_eq!(ask(&mut machine, Reply::Nothing), Request::Arith(op, "6".to_string(), "3".to_string()));
        assert_eq!(ask(&mut machine, Reply::Value(text("answer"))), Request::Done(text("answer")));
    }
}

#[test]
fn an_operand_that_is_no_number_is_zero() {
    let mut machine = loaded(binary(BinaryOp::Sub, text("a"), num("3")));
    assert_eq!(ask(&mut machine, Reply::Nothing), Request::Arith(BinaryOp::Sub, "0".to_string(), "3".to_string()));
    let mut machine = loaded(binary(BinaryOp::GtCheck, num("3"), ASTNode::Boolean(true)));
    assert_eq!(ask(&mut machine, Reply::Nothing), Request::Arith(BinaryOp::GtCheck, "3".to_string(), "0".to_string()));
}

#[test]
fn a_number_is_rendered_before_it_joins_a_text() {
    let mut machine = loaded(binary(BinaryOp::Add, num("1.50"), text("b")));
    assert_eq!(ask(&mut machine, Reply::Nothing), Request::Show("1.50".to_string()));
    assert_eq!(ask(&mut machine, Reply::Value(text("1.5"))), Request::Done(text("1.5b")));
    let mut machine = loaded(binary(BinaryOp::Add, text("a"), num("2")));
    assert_eq!(ask(&mut machine, Reply::Nothing), Request::Show("2".to_string()));
    assert_eq!(ask(&mut machine, Reply::Value(text("2"))), Request::Done(text("a2")));
}

#[test]
fn texts_are_compared_without_asking() {
    let mut machine = loaded(binary(BinaryOp::EqCheck, text("a"), text("a")));
    assert_eq!(ask(&mut machine, Reply::Nothing), Request::Done(ASTNode::Boolean(true)));
    let mut machine = loaded(binary(BinaryOp::NeqCheck, text("a"), text("a")));
    assert_eq!(ask(&mut machine, Reply::Nothing), Request::Done(ASTNode::Boolean(false)));
    let mut machine = loaded(binary(BinaryOp::EqCheck, num("1"), text("1")));
    assert_eq!(ask(&mut machine, Reply::Nothing), Request::Done(ASTNode::Boolean(false)));
    let mut machine = loaded(binary(BinaryOp::NeqCheck, text("1"), num("1")));
    assert_eq!(ask(&mut machine, Reply::Nothing), Request::Done(ASTNode::Boolean(true)));
}

#[test]
fn print_asks_for_the_rendering_and_then_for_the_line() {
    let mut machine = loaded(call("print", vec![num("042")]));
    assert_eq!(ask(&mut machine, Reply::Nothing), Request::Show("042".to_string()));
    assert_eq!(ask(&mut machine, Reply::Value(text("42"))), Request::Print("42".to_string()));
    assert_eq!(ask(&mut machine, Reply::Nothing), Request::Done(ASTNode::Nothing));
}

#[test]
fn print_prints_texts_and_booleans_as_they_are() {
    let mut machine = loaded(call("print", vec![text("line")]));
    assert_eq!(ask(&mut machine, Reply::Nothing), Request::Print("line".to_string()));
    let mut machine = loaded(call("print", vec![ASTNode::Boolean(true)]));
    assert_eq!(ask(&mut machine, Reply::Nothing), Request::Print("true".to_string()));
    let mut machine = loaded(call("print", vec![ASTNode::Boolean(false)]));
    assert_eq!(ask(&mut machine, Reply::Nothing), Request::Print("false".to_string()));
    let mut machine = loaded(call("print", vec![ASTNode::Nothing]));
    assert_eq!(ask(&mut machine, Reply::Nothing), Request::Done(ASTNode::Nothing));
}

#[test]
fn let_binds_in_the_current_environment() {
    let mut machine = loaded(assign(AssignOp::Let, "x", num("5")));
    assert_eq!(ask(&mut machine, Reply::Nothing), Request::Done(ASTNode::Nothing));
    assert_eq!(machine.environment().read(&"x".to_string()), num("5"));
}

#[test]
fn add_assign_asks_for_the_sum_and_stores_it() {
    let mut machine = loaded(assign(AssignOp::Let, "x", num("5")));
    ask(&mut machine, Reply::Nothing);
    machine.load(assign(AssignOp::AddEq, "x", num("2")));
    assert_eq!(ask(&mut machine, Reply::Nothing), Request::Arith(BinaryOp::Add, "5".to_string(), "2".to_string()));
    assert_eq!(ask(&mut machine, Reply::Value(num("7"))), Request::Done(ASTNode::Nothing));
    assert_eq!(machine.environment().read(&"x".to_string()), num("7"));
    machine.load(assign(AssignOp::SubEq, "x", num("3")));
    assert_eq!(ask(&mut machine, Reply::Nothing), Request::Arith(BinaryOp::Sub, "7".to_string(), "3".to_string()));
    assert_eq!(ask(&mut machine, Reply::Value(num("4"))), Request::Done(ASTNode::Nothing));
    assert_eq!(machine.environment().read(&"x".to_string()), num("4"));
}

#[test]
fn if_asks_whether_a_number_is_zero() {
    let node = ASTNode::IfStatement(Box::new(num("2")), vec![call("print", vec![text("yes")])], false, vec![]);
    let mut machine = loaded(node.copy());
    assert_eq!(ask(&mut machine, Reply::Nothing), Request::Arith(BinaryOp::NeqCheck, "2".to_string(), "0".to_string()));
    assert_eq!(ask(&mut machine, Reply::Value(ASTNode::Boolean(true))), Request::Print("yes".to_string()));
    assert_eq!(ask(&mut machine, Reply::Nothing), Request::Done(ASTNode::Nothing));
    let mut machine = loaded(node);
    ask(&mut machine, Reply::Nothing);
    assert_eq!(ask(&mut machine, Reply::Value(ASTNode::Boolean(false))), Request::Done(ASTNode::Nothing));
}

#[test]
fn an_incrementing_loop_asks_for_its_bounds_and_counters() {
    let node = ASTNode::IncrementingLoop(
        "i".to_string(),
        Box::new(num("0.5")),
        Box::new(num("2.5")),
        vec![call("print", vec![text("round")])],
    );
    let mut machine = loaded(node);
    assert_eq!(ask(&mut machine, Reply::Nothing), Request::ToInt("0.5".to_string()));
    assert_eq!(ask(&mut machine, Reply::Integer(0)), Request::ToInt("2.5".to_string()));
    assert_eq!(ask(&mut machine, Reply::Integer(2)), Request::FromInt(0));
    assert_eq!(ask(&mut machine, Reply::Value(num("0"))), Request::Print("round".to_string()));
    assert_eq!(machine.environment().read(&"i".to_string()), num("0"));
    assert_eq!(ask(&mut machine, Reply::Nothing), Request::FromInt(1));
    assert_eq!(ask(&mut machine, Reply::Value(num("1"))), Request::Print("round".to_string()));
    assert_eq!(ask(&mut machine, Reply::Nothing), Request::Done(ASTNode::Nothing));
    assert_eq!(machine.environment().read(&"i".to_string()), ASTNode::Nothing);
}

#[test]
fn a_bound_that_is_no_number_is_zero() {
    let node = ASTNode::IncrementingLoop("i".to_string(), Box::new(text("a")), Box::new(num("1")), vec![]);
    let mut machine = loaded(node);
    assert_eq!(ask(&mut machine, Reply::Nothing), Request::ToInt("1".to_string()));
    assert_eq!(ask(&mut machine, Reply::Integer(1)), Request::FromInt(0));
    assert_eq!(ask(&mut machine, Reply::Value(num("0"))), Request::Done(ASTNode::Nothing));
}

#[test]
fn the_counter_is_bound_to_the_lower_bound_at_first() {
    let node = ASTNode::IncrementingLoop("i".to_string(), Box::new(num("7.5")), Box::new(num("9")), vec![]);
    let mut machine = loaded(node);
    assert_eq!(ask(&mut machine, Reply::Nothing), Request::ToInt("7.5".to_string()));
    assert_eq!(ask(&mut machine, Reply::Integer(7)), Request::ToInt("9".to_string()));
    assert_eq!(ask(&mut machine, Reply::Integer(9)), Request::FromInt(7));
    assert_eq!(machine.environment().read(&"i".to_string()), num("7.5"));
}

#[test]
fn steps_stop_when_the_budget_is_spent() {
    let forever = ASTNode::ConditionalLoop(Box::new(ASTNode::Boolean(true)), vec![]);
    let mut machine = loaded(forever);
    assert_eq!(machine.steps(Reply::Nothing, 0), Request::Continue);
    assert_eq!(machine.steps(Reply::Nothing, 10), Request::Continue);
    assert_eq!(machine.steps(Reply::Nothing, 1000), Request::Continue);
    assert!(!machine.is_idle());
}

#[test]
fn a_fault_empties_the_machine() {
    let mut machine = loaded(assign(AssignOp::Let, "x", num("1")));
    ask(&mut machine, Reply::Nothing);
    machine.load(call("print", vec![call("nobody", vec![])]));
    assert_eq!(ask(&mut machine, Reply::Nothing), Request::Fault(ExecError::UndefinedFunction("nobody".to_string())));
    assert!(machine.is_idle());
    assert_eq!(machine.environment().read(&"x".to_string()), num("1"));
    assert_eq!(ask(&mut machine, Reply::Nothing), Request::Done(ASTNode::Nothing));
}

#[test]
fn a_fault_in_a_call_drops_the_calls_environment() {
    let mut machine = Machine::new();
    machine.load(ASTNode::FunctionDecl(
        "f".to_string(),
        vec!["a".to_string()],
        vec![assign(AssignOp::Let, "y", num("2")), call("nobody", vec![])],
    ));
    ask(&mut machine, Reply::Nothing);
    machine.load(call("f", vec![num("1")]));
    assert_eq!(ask(&mut machine, Reply::Nothing), Request::Fault(ExecError::UndefinedFunction("nobody".to_string())));
    assert_eq!(machine.environment().read(&"a".to_string()), ASTNode::Nothing);
    assert_eq!(machine.environment().read(&"y".to_string()), ASTNode::Nothing);
    assert!(machine.environment().functions.contains(&"f".to_string()));
}

#[test]
fn a_variable_reads_in_the_current_environment() {
    let mut machine = loaded(assign(AssignOp::Let, "x", text("t")));
    ask(&mut machine, Reply::Nothing);
    machine.load(var("x"));
    assert_eq!(ask(&mut machine, Reply::Nothing), Request::Done(text("t")));
    machine.load(var("y"));
    assert_eq!(ask(&mut machine, Reply::Nothing), Request::Done(ASTNode::Nothing));
}
