use skcore::ast::{ASTNode, AssignOp, BinaryOp};
use skcore::machine::{ExecError, Machine, Reply, Request};
use skcore::parser::parse_program;
use skcore::preprocess::preprocess;
use skcore::scanner::scan;

fn number(numeral: &str) -> f64 {
    numeral.parse::<f64>().unwrap()
}

fn numeral(x: f64) -> String {
    format!("{}", x)
}

fn apply(op: BinaryOp, a: f64, b: f64) -> ASTNode {
    match op {
        BinaryOp::Add => ASTNode::Number(numeral(a + b)),
        BinaryOp::Sub => ASTNode::Number(numeral(a - b)),
        BinaryOp::Mul => ASTNode::Number(numeral(a * b)),
        BinaryOp::Div => ASTNode::Number(numeral(a / b)),
        BinaryOp::Modulo => ASTNode::Number(numeral(a % b)),
        BinaryOp::EqCheck => ASTNode::Boolean(a == b),
        BinaryOp::NeqCheck => ASTNode::Boolean(a != b),
        BinaryOp::GtCheck => ASTNode::Boolean(a > b),
        BinaryOp::LtCheck => ASTNode::Boolean(a < b),
        BinaryOp::GteCheck => ASTNode::Boolean(a >= b),
        BinaryOp::LteCheck => ASTNode::Boolean(a <= b),
    }
}

/// Runs one loaded statement to its end. Returns its value, or the fault.
fn finish(machine: &mut Machine, output: &mut Vec<String>, budget: &mut u64) -> Result<ASTNode, ExecError> {
    let mut reply = Reply::Nothing;
    loop {
        assert!(*budget > 0, "the program did not end");
        *budget -= 1;
        reply = match machine.step(reply) {
            Request::Continue => Reply::Nothing,
            Request::Arith(op, a, b) => Reply::Value(apply(op, number(&a), number(&b))),
            Request::Show(n) => Reply::Value(ASTNode::Text(numeral(number(&n)))),
            Request::ToInt(n) => Reply::Integer(number(&n) as i32),
            Request::FromInt(i) => Reply::Value(ASTNode::Number(numeral(i as f64))),
            Request::Print(line) => {
                output.push(line);
                Reply::Nothing
            }
            Request::Done(value) => return Ok(value),
            Request::Fault(error) => return Err(error),
        };
    }
}

/// Runs a program given as nodes. Returns the printed lines and the value
/// of the last statement.
fn execute(program: &[ASTNode]) -> Result<(Vec<String>, ASTNode), ExecError> {
    let mut machine = Machine::new();
    let mut output = Vec::new();
    let mut budget = 1_000_000u64;
    let mut last = ASTNode::Nothing;
    for statement in program {
        machine.load(statement.copy());
        last = finish(&mut machine, &mut output, &mut budget)?;
    }
    Ok((output, last))
}

/// Runs source text. Returns the printed lines.
fn run(source: &str) -> Vec<String> {
    let cleaned = preprocess(source.to_string());
    let tokens = scan(&cleaned).unwrap();
    let program = parse_program(&tokens).unwrap();
    execute(&program).unwrap().0
}

fn text(t: &str) -> ASTNode {
    ASTNode::Text(t.to_string())
}

fn num(n: &str) -> ASTNode {
    ASTNode::Number(n.to_string())
}

fn var(name: &str) -> ASTNode {
    ASTNode::Variable(name.to_string())
}

fn call(name: &str, args: Vec<ASTNode>) -> ASTNode {
    ASTNode::FunctionCall(name.to_string(), args)
}

fn binary(op: BinaryOp, lhs: ASTNode, rhs: ASTNode) -> ASTNode {
    ASTNode::Binary(op, Box::new(lhs), Box::new(rhs))
}

fn assign(op: AssignOp, name: &str, value: ASTNode) -> ASTNode {
    ASTNode::Assign(op, name.to_string(), Box::new(value))
}

#[test]
fn prints_a_number() {
    assert_eq!(run("print(42);"), vec!["42"]);
}

#[test]
fn prints_a_sum() {
    assert_eq!(run("print(1+2);"), vec!["3"]);
}

#[test]
fn concatenates_left_to_right_with_decimal_numbers() {
    assert_eq!(run("print(\"a\" + 1 + \"b\");"), vec!["a1b"]);
}

#[test]
fn a_number_is_not_equal_to_a_text() {
    assert_eq!(run("print(1 == \"1\");"), vec!["false"]);
    assert_eq!(run("print(1 != \"1\");"), vec!["true"]);
    assert_eq!(run("print(\"1\" == 1);"), vec!["false"]);
    assert_eq!(run("print(\"1\" != 1);"), vec!["true"]);
}

#[test]
fn reassignment_changes_the_shape() {
    assert_eq!(run("let x = 5; x = \"hi\"; print(x);"), vec!["hi"]);
    assert_eq!(run("let x = \"hi\"; x = 5; print(x);"), vec!["5"]);
    assert_eq!(run("let x = 5; let x = \"hi\"; print(x);"), vec!["hi"]);
}

#[test]
fn compound_assignment_without_binding_does_nothing() {
    assert_eq!(run("x += 1;"), Vec::<String>::new());
    assert_eq!(run("x += 1; print(x);"), Vec::<String>::new());
    assert_eq!(run("x -= 1; print(x);"), Vec::<String>::new());
    assert_eq!(run("x = 1; print(x);"), Vec::<String>::new());
}

#[test]
fn incrementing_loop_mutations_do_not_escape() {
    assert_eq!(run("let x = 0; loop i in 0 to 3 { x = 99; } print(x);"), vec!["0"]);
}

#[test]
fn conditional_loop_mutations_escape() {
    assert_eq!(run("let x = 0; loop while x < 3 { x += 1; } print(x);"), vec!["3"]);
}

#[test]
fn an_undefined_variable_prints_nothing() {
    assert_eq!(run("print(undefinedVar);"), Vec::<String>::new());
}

#[test]
fn a_literal_argument_binds_the_parameter() {
    assert_eq!(run("fn f(a) { print(a); } f(7);"), vec!["7"]);
    assert_eq!(run("fn f(a) { print(a); } f(\"seven\");"), vec!["seven"]);
}

#[test]
fn a_variable_argument_binds_the_parameter() {
    assert_eq!(run("fn f(a) { print(a); } let x = 7; f(x);"), vec!["7"]);
    assert_eq!(run("fn f(a) { print(a); } let x = \"t\"; f(x);"), vec!["t"]);
}

#[test]
fn a_compound_argument_leaves_the_parameter_unbound() {
    assert_eq!(run("fn f(a) { print(a); print(\"end\"); } f(1+1);"), vec!["end"]);
    assert_eq!(run("fn f(a) { print(a); print(\"end\"); } f(true);"), vec!["end"]);
}

#[test]
fn an_unbound_variable_argument_leaves_the_parameter_unbound() {
    assert_eq!(run("fn f(a) { print(a); print(\"end\"); } f(nobody);"), vec!["end"]);
}

#[test]
fn operators_nest_to_the_right() {
    // 1 + (2 * 3) and 2 * (3 + 1): grouping goes by position alone.
    assert_eq!(run("print(1 + 2 * 3);"), vec!["7"]);
    assert_eq!(run("print(2 * 3 + 1);"), vec!["8"]);
    assert_eq!(run("print(10 - 2 - 3);"), vec!["11"]);
}

#[test]
fn arithmetic_has_exact_results() {
    assert_eq!(run("print(7 - 2);"), vec!["5"]);
    assert_eq!(run("print(6 * 7);"), vec!["42"]);
    assert_eq!(run("print(1 / 2);"), vec!["0.5"]);
    assert_eq!(run("print(7 % 4);"), vec!["3"]);
    assert_eq!(run("print(1.5 + 2.25);"), vec!["3.75"]);
    assert_eq!(run("print(12 + 30);"), vec!["42"]);
}

#[test]
fn comparisons_give_booleans() {
    assert_eq!(run("print(1 < 2);"), vec!["true"]);
    assert_eq!(run("print(1 > 2);"), vec!["false"]);
    assert_eq!(run("print(2 >= 2);"), vec!["true"]);
    assert_eq!(run("print(3 <= 2);"), vec!["false"]);
    assert_eq!(run("print(2 == 2);"), vec!["true"]);
    assert_eq!(run("print(2 != 2);"), vec!["false"]);
    assert_eq!(run("print(\"a\" == \"a\");"), vec!["true"]);
    assert_eq!(run("print(\"a\" != \"b\");"), vec!["true"]);
}

#[test]
fn an_operand_that_is_no_number_counts_as_zero() {
    assert_eq!(run("print(\"a\" - 1);"), vec!["-1"]);
    assert_eq!(run("print(5 * \"a\");"), vec!["0"]);
    assert_eq!(run("print(nobody < 1);"), vec!["true"]);
    assert_eq!(run("print(\"a\" > 1);"), vec!["false"]);
}

#[test]
fn prints_booleans() {
    assert_eq!(run("print(true); print(false);"), vec!["true", "false"]);
}

#[test]
fn an_argument_that_is_nothing_is_no_argument() {
    let tokens = scan("print(none);").unwrap();
    let program = parse_program(&tokens).unwrap();
    assert_eq!(program, vec![call("print", vec![]), ASTNode::Nothing]);
    assert_eq!(execute(&program), Err(ExecError::MissingArgument("print".to_string())));
}

#[test]
fn add_assign_appends_text() {
    assert_eq!(run("let s = \"ab\"; s += \"cd\"; print(s);"), vec!["abcd"]);
}

#[test]
fn compound_assignment_of_the_other_shape_does_nothing() {
    assert_eq!(run("let s = \"ab\"; s += 1; print(s);"), vec!["ab"]);
    assert_eq!(run("let n = 1; n += \"x\"; print(n);"), vec!["1"]);
    assert_eq!(run("let s = \"ab\"; s -= 1; print(s);"), vec!["ab"]);
}

#[test]
fn sub_assign_subtracts() {
    assert_eq!(run("let n = 10; n -= 4; print(n);"), vec!["6"]);
}

#[test]
fn let_with_a_boolean_binds_nothing() {
    assert_eq!(run("let b = true; print(b); print(\"end\");"), vec!["end"]);
}

#[test]
fn if_takes_a_nonzero_number_as_true() {
    assert_eq!(run("if 1 { print(\"yes\"); } else { print(\"no\"); }"), vec!["yes"]);
    assert_eq!(run("if 0 { print(\"yes\"); } else { print(\"no\"); }"), vec!["no"]);
    assert_eq!(run("if 0 { print(\"yes\"); } print(\"end\");"), vec!["end"]);
}

#[test]
fn if_takes_a_boolean_as_it_is_and_the_rest_as_false() {
    assert_eq!(run("if true { print(\"yes\"); } else { print(\"no\"); }"), vec!["yes"]);
    assert_eq!(run("if 1 < 2 { print(\"yes\"); } else { print(\"no\"); }"), vec!["yes"]);
    assert_eq!(run("if \"text\" { print(\"yes\"); } else { print(\"no\"); }"), vec!["no"]);
    assert_eq!(run("if nobody { print(\"yes\"); } else { print(\"no\"); }"), vec!["no"]);
}

#[test]
fn else_if_chains() {
    let source = "let x = 2; if x == 1 { print(\"one\"); } else if x == 2 { print(\"two\"); } else { print(\"many\"); }";
    assert_eq!(run(source), vec!["two"]);
}

#[test]
fn if_runs_in_the_current_environment() {
    assert_eq!(run("let x = 1; if true { x = 2; } print(x);"), vec!["2"]);
}

#[test]
fn incrementing_loop_counts_from_lower_to_upper() {
    assert_eq!(run("loop i in 0 to 3 { print(i); }"), vec!["0", "1", "2"]);
    assert_eq!(run("loop i in 2 to 2 { print(i); } print(\"end\");"), vec!["end"]);
    assert_eq!(run("loop i in 3 to 1 { print(i); } print(\"end\");"), vec!["end"]);
}

#[test]
fn incrementing_loop_truncates_its_bounds() {
    assert_eq!(run("loop i in 0.5 to 2.5 { print(i); }"), vec!["0", "1"]);
}

#[test]
fn incrementing_loop_evaluates_its_bounds() {
    assert_eq!(run("let n = 2; loop i in 0 to n { print(i); }"), vec!["0", "1"]);
    assert_eq!(run("loop i in 0 to 1 + 1 { print(i); }"), vec!["0", "1"]);
}

#[test]
fn incrementing_loop_counter_does_not_escape() {
    assert_eq!(run("loop i in 0 to 2 { } print(i); print(\"end\");"), vec!["end"]);
}

#[test]
fn incrementing_loop_keeps_changes_from_round_to_round() {
    assert_eq!(run("let x = 0; loop i in 0 to 3 { x += 1; print(x); } print(x);"), vec!["1", "2", "3", "0"]);
}

#[test]
fn conditional_loop_with_a_number_as_condition_does_not_run() {
    assert_eq!(run("loop while 1 { print(\"in\"); } print(\"end\");"), vec!["end"]);
}

#[test]
fn a_call_sees_no_variable_of_its_caller() {
    assert_eq!(run("let x = 1; fn f() { print(x); print(\"end\"); } f();"), vec!["end"]);
}

#[test]
fn a_call_does_not_change_its_callers_variables() {
    assert_eq!(run("let x = 1; fn f(x) { x = 2; print(x); } f(x); print(x);"), vec!["2", "1"]);
}

#[test]
fn a_call_has_the_value_of_its_last_statement() {
    assert_eq!(run("fn f(a) { return(a + 1); } let y = f(2); print(y);"), vec!["3"]);
    assert_eq!(run("fn f(a) { return(a + 1); a; } let y = f(2); print(y);"), vec!["2"]);
}

#[test]
fn return_does_not_leave_the_function() {
    assert_eq!(run("fn f() { return(1); print(\"after\"); } f();"), vec!["after"]);
    assert_eq!(run("fn f(a) { if a { return(1); } return(2); } let y = f(1); print(y);"), vec!["2"]);
}

#[test]
fn a_function_can_call_itself() {
    let source = "fn down(n) { print(n); if n > 0 { n -= 1; down(n); } } down(2);";
    assert_eq!(run(source), vec!["2", "1", "0"]);
}

#[test]
fn a_function_declared_later_is_read_as_a_variable() {
    assert_eq!(run("print(later); fn later() { print(1); } print(\"end\");"), vec!["end"]);
}

#[test]
fn functions_are_visible_in_calls() {
    assert_eq!(run("fn a() { print(\"a\"); } fn b() { a(); } b();"), vec!["a"]);
}

#[test]
fn a_function_declared_in_a_call_is_gone_after_it() {
    let program = vec![
        ASTNode::FunctionDecl(
            "outer".to_string(),
            vec![],
            vec![ASTNode::FunctionDecl("inner".to_string(), vec![], vec![call("print", vec![num("1")])]), call("inner", vec![])],
        ),
        call("outer", vec![]),
        call("inner", vec![]),
    ];
    assert_eq!(execute(&program), Err(ExecError::UndefinedFunction("inner".to_string())));
}

#[test]
fn calling_an_unknown_function_is_a_fault() {
    let program = vec![call("nobody", vec![num("1")])];
    assert_eq!(execute(&program), Err(ExecError::UndefinedFunction("nobody".to_string())));
}

#[test]
fn calling_with_too_few_arguments_is_a_fault() {
    assert_eq!(execute(&[call("print", vec![])]), Err(ExecError::MissingArgument("print".to_string())));
    assert_eq!(execute(&[call("return", vec![])]), Err(ExecError::MissingArgument("return".to_string())));
    let program = vec![
        ASTNode::FunctionDecl("f".to_string(), vec!["a".to_string(), "b".to_string()], vec![]),
        call("f", vec![num("1")]),
    ];
    assert_eq!(execute(&program), Err(ExecError::MissingArgument("f".to_string())));
}

#[test]
fn the_machine_is_idle_again_after_a_fault() {
    let mut machine = Machine::new();
    machine.load(call("print", vec![call("nobody", vec![])]));
    let mut output = Vec::new();
    let mut budget = 100u64;
    assert!(finish(&mut machine, &mut output, &mut budget).is_err());
    assert!(machine.is_idle());
    machine.load(call("print", vec![text("again")]));
    assert_eq!(finish(&mut machine, &mut output, &mut budget), Ok(ASTNode::Nothing));
    assert_eq!(output, vec!["again"]);
}

#[test]
fn statements_have_their_values() {
    assert_eq!(execute(&[num("4")]).unwrap().1, num("4"));
    assert_eq!(execute(&[text("t")]).unwrap().1, text("t"));
    assert_eq!(execute(&[ASTNode::Boolean(true)]).unwrap().1, ASTNode::Boolean(true));
    assert_eq!(execute(&[var("x")]).unwrap().1, ASTNode::Nothing);
    assert_eq!(execute(&[ASTNode::Nothing]).unwrap().1, ASTNode::Nothing);
    assert_eq!(execute(&[assign(AssignOp::Let, "x", num("1"))]).unwrap().1, ASTNode::Nothing);
    assert_eq!(execute(&[assign(AssignOp::Let, "x", num("1")), var("x")]).unwrap().1, num("1"));
    assert_eq!(execute(&[binary(BinaryOp::Add, text("a"), text("b"))]).unwrap().1, text("ab"));
    assert_eq!(execute(&[binary(BinaryOp::Add, ASTNode::Nothing, ASTNode::Boolean(true))]).unwrap().1, text(""));
    assert_eq!(execute(&[binary(BinaryOp::Add, ASTNode::Nothing, num("5"))]).unwrap().1, text("5"));
    assert_eq!(execute(&[call("return", vec![num("9")])]).unwrap().1, num("9"));
    assert_eq!(execute(&[call("print", vec![num("9")])]).unwrap(), (vec!["9".to_string()], ASTNode::Nothing));
}

#[test]
fn the_loop_break_mark_ends_the_round() {
    // while x < 2 { x += 1; print(x); <mark>; print("skipped"); }
    let body = vec![
        assign(AssignOp::AddEq, "x", num("1")),
        call("print", vec![var("x")]),
        ASTNode::LoopBreak,
        call("print", vec![text("skipped")]),
    ];
    let program = vec![
        assign(AssignOp::Let, "x", num("0")),
        ASTNode::ConditionalLoop(Box::new(binary(BinaryOp::LtCheck, var("x"), num("2"))), body),
    ];
    assert_eq!(execute(&program).unwrap().0, vec!["1", "2"]);
}

#[test]
fn the_loop_break_mark_ends_the_round_of_an_incrementing_loop() {
    let body = vec![call("print", vec![var("i")]), ASTNode::LoopBreak, call("print", vec![text("skipped")])];
    let program = vec![ASTNode::IncrementingLoop("i".to_string(), Box::new(num("0")), Box::new(num("2")), body)];
    assert_eq!(execute(&program).unwrap().0, vec!["0", "1"]);
}

#[test]
fn break_in_source_is_nothing() {
    assert_eq!(run("loop i in 0 to 2 { break; print(i); }"), vec!["0", "1"]);
}

#[test]
fn comment_lines_are_not_run() {
    assert_eq!(run("print(1);\n#print(2);\nprint(3);\n"), vec!["1", "3"]);
}

#[test]
fn no_name_is_a_number_and_a_text_at_once() {
    let cleaned = "let x = 1; let y = \"t\"; x = \"u\"; y = 2; let x = 3; y += 1; \
                   fn f(a) { a = \"v\"; let a = 4; } f(x); loop i in 0 to 2 { x = \"w\"; }";
    let program = parse_program(&scan(cleaned).unwrap()).unwrap();
    let mut machine = Machine::new();
    let mut output = Vec::new();
    let mut budget = 10_000u64;
    for statement in &program {
        machine.load(statement.copy());
        finish(&mut machine, &mut output, &mut budget).unwrap();
        let env = machine.environment();
        for entry in &env.n_vars.entries {
            assert!(!env.s_vars.contains(&entry.name));
            assert!(matches!(entry.value, ASTNode::Number(_)));
        }
        for entry in &env.s_vars.entries {
            assert!(matches!(entry.value, ASTNode::Text(_)));
        }
    }
    assert_eq!(machine.environment().read(&"x".to_string()), num("3"));
    assert_eq!(machine.environment().read(&"y".to_string()), num("3"));
}

#[test]
fn lines_before_a_fault_are_printed() {
    let program = vec![
        ASTNode::FunctionDecl("f".to_string(), vec![], vec![call("print", vec![text("before")]), call("nobody", vec![])]),
        call("f", vec![]),
    ];
    let mut machine = Machine::new();
    let mut output = Vec::new();
    let mut budget = 1_000u64;
    machine.load(program[0].copy());
    finish(&mut machine, &mut output, &mut budget).unwrap();
    machine.load(program[1].copy());
    assert_eq!(finish(&mut machine, &mut output, &mut budget), Err(ExecError::UndefinedFunction("nobody".to_string())));
    assert_eq!(output, vec!["before"]);
}

#[test]
fn a_longer_program_runs() {
    let source = "let a = 0; let b = 1;\n\
                  # the first numbers\n\
                  loop i in 0 to 10 { print(a); let t = a + b; a = b; b = t; }\n\
                  print(a);";
    assert_eq!(run(source), vec!["0", "1", "1", "2", "3", "5", "8", "13", "21", "34", "0"]);
}

#[test]
fn the_value_of_a_conditional_is_nothing_even_with_return_in_it() {
    let source = "fn f(n) { if n < 2 { return(n); } } let r = f(1); print(r); print(\"end\");";
    assert_eq!(run(source), vec!["end"]);
}

#[test]
fn a_loop_of_many_rounds_runs() {
    assert_eq!(run("let i = 0; loop while i < 20000 { i += 1; } print(i);"), vec!["20000"]);
}

#[test]
fn a_deep_recursion_runs() {
    let source = "fn down(n) { if n > 0 { n -= 1; down(n); } else { print(\"bottom\"); } } down(2000);";
    assert_eq!(run(source), vec!["bottom"]);
}

#[test]
fn a_call_of_a_function_declared_later_is_no_call() {
    // The first `g` is read as a variable, which is unbound; nothing is
    // printed for it, and the program goes on.
    assert_eq!(run("g(1); fn g(a) { print(a); } g(2);"), vec!["2"]);
    assert_eq!(run("print(later(7)); fn later(a) { return(a); } print(later(8));"), vec!["8"]);
}
