//! What holds of the library as a whole, proved from the definitions that
//! the contracts use.

use vstd::prelude::*;
use crate::ast::{AssignOp, BinaryOp, Node};
use crate::env::{bind_argument, bind_arguments, Environment};
use crate::grammar::{
    atom_node, binary_op_of, ends_atom, has_token, is_between_arguments, is_literal,
    parse_args_spec, parse_block_spec, parse_braced_spec, parse_call_spec, parse_else_spec,
    parse_expr_spec, parse_params_spec, parse_spec, Failure, Parsed,
};
use crate::preprocess::{is_comment, kept_lines, line_end, preprocess_spec, without_returns};
use crate::program::{program_of, SyntaxFailure};
use crate::meaning::{
    at_once, binary_value, bound_of, eval, eval_call, eval_list, eval_rounds, eval_while,
    truth_of, written, Mode, Numbers, Outcome, Stop,
};
use crate::semantics::{absorb, number_of, step_spec, Answer, MachineView};
use crate::token::{Lexeme, Token};

verus! {

/// Parsing is a function of the source text: two readings of the same text
/// give the same outcome, the same tree or the same failure.
pub proof fn law_reading_twice_gives_the_same(
    first_source: Seq<char>,
    second_source: Seq<char>,
    first: Result<Seq<Node>, SyntaxFailure>,
    second: Result<Seq<Node>, SyntaxFailure>,
)
    requires
        first_source == second_source,
        first == program_of(first_source),
        second == program_of(second_source),
    ensures
        first == second,
{
}

/// An expression or a call that parses takes tokens, and declares nothing.
proof fn lemma_expr_advances(t: Seq<Lexeme>, pos: int, fns: Seq<Seq<char>>)
    ensures
        parse_expr_spec(t, pos, fns) matches Ok(p) ==> pos < p.next <= t.len() && p.fns == fns,
        parse_call_spec(t, pos, fns) matches Ok(p) ==> pos < p.next <= t.len() && p.fns == fns,
    decreases t.len() - pos, 1nat,
{
    if 0 <= pos < t.len() {
        if has_token(t, pos + 1, Token::KwLParen) {
            lemma_args_advance(t, pos + 2, fns);
        }
        if pos + 1 < t.len() && !ends_atom(t[pos + 1].token) {
            lemma_expr_advances(t, pos + 2, fns);
        }
    }
}

/// A list of arguments that parses takes tokens, and declares nothing.
proof fn lemma_args_advance(t: Seq<Lexeme>, pos: int, fns: Seq<Seq<char>>)
    ensures
        parse_args_spec(t, pos, fns) matches Ok(p) ==> pos < p.next <= t.len() && p.fns == fns,
    decreases t.len() - pos, 2nat,
{
    if 0 <= pos < t.len() {
        if t[pos].token == Token::KwRParen {
        } else if is_between_arguments(t[pos].token) {
            lemma_args_advance(t, pos + 1, fns);
        } else {
            lemma_expr_advances(t, pos, fns);
            match parse_expr_spec(t, pos, fns) {
                Ok(arg) => {
                    lemma_args_advance(t, arg.next, fns);
                },
                Err(_) => {},
            }
        }
    }
}

/// A list of parameters that parses takes tokens.
proof fn lemma_params_advance(t: Seq<Lexeme>, pos: int)
    ensures
        parse_params_spec(t, pos) matches Ok(p) ==> pos < p.next <= t.len(),
    decreases t.len() - pos,
{
    if 0 <= pos < t.len() && t[pos].token != Token::KwRParen {
        lemma_params_advance(t, pos + 1);
    }
}

/// A block that parses takes tokens, with or without its opening brace.
proof fn lemma_block_advances(t: Seq<Lexeme>, pos: int, fns: Seq<Seq<char>>)
    ensures
        parse_block_spec(t, pos, fns) matches Ok(p) ==> pos < p.next <= t.len(),
        parse_braced_spec(t, pos, fns) matches Ok(p) ==> pos < p.next <= t.len(),
    decreases t.len() - pos, 4nat,
{
    if 0 <= pos < t.len() {
        if t[pos].token != Token::KwRBrace {
            lemma_statement_advances(t, pos, fns);
            match parse_spec(t, pos, fns) {
                Ok(item) => {
                    lemma_block_advances(t, item.next, item.fns);
                },
                Err(_) => {},
            }
        }
        if t[pos].token == Token::KwLBrace {
            lemma_block_inside_advances(t, pos + 1, fns);
        }
    }
}

/// The statements of a block that parse take tokens.
proof fn lemma_block_inside_advances(t: Seq<Lexeme>, pos: int, fns: Seq<Seq<char>>)
    ensures
        parse_block_spec(t, pos, fns) matches Ok(p) ==> pos < p.next <= t.len(),
    decreases t.len() - pos, 4nat,
{
    if 0 <= pos < t.len() {
        if t[pos].token != Token::KwRBrace {
            lemma_statement_advances(t, pos, fns);
            match parse_spec(t, pos, fns) {
                Ok(item) => {
                    lemma_block_inside_advances(t, item.next, item.fns);
                },
                Err(_) => {},
            }
        }
    }
}

/// A statement that parses takes tokens.
proof fn lemma_statement_advances(t: Seq<Lexeme>, pos: int, fns: Seq<Seq<char>>)
    ensures
        parse_spec(t, pos, fns) matches Ok(p) ==> pos < p.next <= t.len(),
    decreases t.len() - pos, 3nat,
{
    if 0 <= pos < t.len() {
        match t[pos].token {
            Token::KwLet => {
                lemma_expr_advances(t, pos + 3, fns);
            },
            Token::KwFn => {
                lemma_params_advance(t, pos + 3);
                match parse_params_spec(t, pos + 3) {
                    Ok(params) => {
                        if has_token(t, pos + 1, Token::Identifier) {
                            lemma_block_advances(t, params.next, fns.push(t[pos + 1].text));
                        }
                    },
                    Err(_) => {},
                }
            },
            Token::KwIf => {
                lemma_expr_advances(t, pos + 1, fns);
                match parse_expr_spec(t, pos + 1, fns) {
                    Ok(cond) => {
                        lemma_block_advances(t, cond.next, fns);
                        match parse_braced_spec(t, cond.next, fns) {
                            Ok(body) => {
                                if pos < body.next <= t.len() {
                                    lemma_else_advances(t, body.next, body.fns);
                                }
                            },
                            Err(_) => {},
                        }
                    },
                    Err(_) => {},
                }
            },
            Token::KwLoop => {
                lemma_expr_advances(t, pos + 2, fns);
                match parse_expr_spec(t, pos + 2, fns) {
                    Ok(cond) => {
                        lemma_block_advances(t, cond.next, fns);
                    },
                    Err(_) => {},
                }
                lemma_expr_advances(t, pos + 3, fns);
                match parse_expr_spec(t, pos + 3, fns) {
                    Ok(lower) => {
                        lemma_expr_advances(t, lower.next + 1, fns);
                        match parse_expr_spec(t, lower.next + 1, fns) {
                            Ok(upper) => {
                                lemma_block_advances(t, upper.next, fns);
                            },
                            Err(_) => {},
                        }
                    },
                    Err(_) => {},
                }
            },
            Token::KwTerminator | Token::KwComma | Token::KwBreak | Token::KwNone => {},
            _ => {
                lemma_expr_advances(t, pos, fns);
            },
        }
    }
}

/// What follows the body of a conditional ends within the tokens.
proof fn lemma_else_advances(t: Seq<Lexeme>, pos: int, fns: Seq<Seq<char>>)
    requires
        0 <= pos <= t.len(),
    ensures
        parse_else_spec(t, pos, fns) matches Ok(p) ==> pos <= p.1.next <= t.len(),
    decreases t.len() - pos, 6nat,
{
    if has_token(t, pos, Token::KwElse) {
        if has_token(t, pos + 1, Token::KwLBrace) {
            lemma_block_inside_advances(t, pos + 2, fns);
        } else {
            lemma_statement_advances(t, pos + 1, fns);
        }
    }
}

/// A statement that parses takes at least one token and ends within the
/// tokens: the position after it is greater than the position where it
/// starts, and at most the number of tokens.
pub proof fn law_statement_takes_tokens(t: Seq<Lexeme>, pos: int, fns: Seq<Seq<char>>)
    ensures
        parse_spec(t, pos, fns) matches Ok(p) ==> pos < p.next <= t.len(),
        parse_expr_spec(t, pos, fns) matches Ok(p) ==> pos < p.next <= t.len() && p.fns == fns,
{
    lemma_statement_advances(t, pos, fns);
    lemma_expr_advances(t, pos, fns);
}

/// There is no precedence among operators: an atom followed by an operator
/// is the left operand, and the whole expression to the right of the
/// operator is the right operand, whatever operators it holds.
pub proof fn law_operators_nest_to_the_right(t: Seq<Lexeme>, pos: int, fns: Seq<Seq<char>>)
    requires
        0 <= pos,
        pos + 1 < t.len(),
        is_literal(t[pos].token) || (t[pos].token == Token::Identifier && !fns.contains(
            t[pos].text,
        )),
        binary_op_of(t[pos + 1].token) is Some,
    ensures
        parse_expr_spec(t, pos, fns) == (match parse_expr_spec(t, pos + 2, fns) {
            Ok(rhs) => Ok::<Parsed, Failure>(
                Parsed {
                    node: Node::Binary(
                        binary_op_of(t[pos + 1].token)->0,
                        Box::new(atom_node(t[pos])),
                        Box::new(rhs.node),
                    ),
                    next: rhs.next,
                    fns,
                },
            ),
            Err(f) => Err::<Parsed, Failure>(f),
        }),
{
}

/// An identifier is read as a call if and only if a function of that name
/// was declared before it. The name of a function that is declared later
/// reads as a variable: before a token that ends an atom, and before the
/// opening parenthesis of what was written as a call, which is left
/// unread. An operator after it makes it the left operand.
pub proof fn law_only_known_names_are_calls(t: Seq<Lexeme>, pos: int, fns: Seq<Seq<char>>)
    requires
        0 <= pos < t.len(),
        t[pos].token == Token::Identifier,
    ensures
        fns.contains(t[pos].text) ==> parse_expr_spec(t, pos, fns) == parse_call_spec(t, pos, fns),
        !fns.contains(t[pos].text) && pos + 1 < t.len() && (ends_atom(t[pos + 1].token)
            || t[pos + 1].token == Token::KwLParen) ==> parse_expr_spec(t, pos, fns) == Ok::<
            Parsed,
            Failure,
        >(Parsed { node: Node::Variable(t[pos].text), next: pos + 1, fns }),
        !fns.contains(t[pos].text) ==> (parse_expr_spec(t, pos, fns) matches Ok(p) ==> !(
        p.node is FunctionCall)),
        parse_call_spec(t, pos, fns) matches Ok(p) ==> p.node is FunctionCall,
{
}

/// What was written as a call of a function that is not known, because it
/// is declared only later or never, is no syntax error: as a statement, the
/// name reads as a variable, and the opening parenthesis behind it as a
/// statement that is nothing, as does a closing parenthesis where a
/// statement starts; the known functions stay as they were.
pub proof fn law_unknown_call_reads_on(t: Seq<Lexeme>, pos: int, fns: Seq<Seq<char>>)
    requires
        0 <= pos,
        pos + 1 < t.len(),
        t[pos].token == Token::Identifier,
        !fns.contains(t[pos].text),
        t[pos + 1].token == Token::KwLParen,
    ensures
        parse_spec(t, pos, fns) == Ok::<Parsed, Failure>(
            Parsed { node: Node::Variable(t[pos].text), next: pos + 1, fns },
        ),
        parse_spec(t, pos + 1, fns) == Ok::<Parsed, Failure>(
            Parsed { node: Node::Nothing, next: pos + 2, fns },
        ),
        forall|at: int|
            0 <= at < t.len() && t[at].token == Token::KwRParen ==> #[trigger] parse_spec(
                t,
                at,
                fns,
            ) == Ok::<Parsed, Failure>(Parsed { node: Node::Nothing, next: at + 1, fns }),
{
}

/// A call binds a parameter from a literal argument or from a variable of
/// the caller, and from nothing else: with one parameter and one argument,
/// the parameter reads in the callee as the literal, or as the variable
/// reads in the caller; after any other argument the parameter reads as
/// nothing.
pub proof fn law_call_binds_literals_and_variables(
    caller: Environment,
    param: Seq<char>,
    arg: Node,
)
    requires
        caller.well_shaped(),
    ensures
        ({
            let callee = bind_arguments(caller.child(), seq![param], seq![arg], caller, 0);
            &&& arg is Number || arg is Text ==> callee.read(param) == arg
            &&& arg matches Node::Variable(name) ==> callee.read(param) == caller.read(name)
            &&& !(arg is Number || arg is Text || arg is Variable) ==> callee.read(param)
                == Node::Nothing
        }),
{
    let first = bind_argument(caller.child(), param, arg, caller);
    assert(bind_arguments(caller.child(), seq![param], seq![arg], caller, 0) == bind_arguments(
        first,
        seq![param],
        seq![arg],
        caller,
        1,
    ));
}

/// A call of a declared function runs the body in the environment that the
/// arguments bind, and leaves the caller's environment as it was: the body
/// reads and writes no variable of the caller.
pub proof fn law_call_keeps_the_callers_environment(
    o: Numbers,
    name: Seq<char>,
    args: Seq<Node>,
    env: Environment,
    count: int,
    fuel: nat,
)
    requires
        name != "print"@,
        name != "return"@,
    ensures
        eval_call(o, name, args, env, count, fuel) matches Ok(r) ==> r.env == env,
        eval_call(o, name, args, env, count, fuel) is Ok && env.functions[name] is FunctionDecl
            ==> ({
            let r = eval_call(o, name, args, env, count, fuel)->Ok_0;
            let params = env.functions[name]->FunctionDecl_1;
            let body = env.functions[name]->FunctionDecl_2;
            let callee = bind_arguments(env.child(), params, args, env, 0);
            let inside = eval_list(
                o,
                Mode::Body,
                body,
                0,
                callee,
                count,
                Node::Nothing,
                (fuel - 1) as nat,
            );
            inside is Ok && r.value == inside->Ok_0.value && r.out == inside->Ok_0.out
        }),
{
}

/// Printing a variable that was never bound prints no line and changes
/// nothing.
pub proof fn law_unbound_variable_prints_nothing(
    o: Numbers,
    name: Seq<char>,
    env: Environment,
    count: int,
    fuel: nat,
)
    requires
        !env.is_bound(name),
        fuel >= 2,
    ensures
        eval(o, Node::Variable(name), env, count, fuel) == Ok::<Outcome, Stop>(
            at_once(Node::Nothing, env, count),
        ),
        eval(o, Node::FunctionCall("print"@, seq![Node::Variable(name)]), env, count, fuel)
            == Ok::<Outcome, Stop>(
            Outcome { value: Node::Nothing, env, count, out: Seq::empty(), steps: 3 },
        ),
{
    let less = (fuel - 1) as nat;
    let args = seq![Node::Variable(name)];
    let none = Seq::<Seq<char>>::empty();
    assert(eval(o, args[0], env, count, less) == Ok::<Outcome, Stop>(
        at_once(Node::Nothing, env, count),
    ));
    assert(none + none =~= none);
    assert(eval_call(o, "print"@, args, env, count, less) == Ok::<Outcome, Stop>(
        Outcome { value: Node::Nothing, env, count, out: none, steps: 3 },
    ));
}

/// A plain or compound assignment to a name that is not a variable is
/// nothing, changes nothing and prints nothing: what is left is what the
/// evaluation of the value left.
pub proof fn law_assignment_needs_a_binding(
    o: Numbers,
    op: AssignOp,
    name: Seq<char>,
    value: Node,
    env: Environment,
    count: int,
    fuel: nat,
)
    requires
        op != AssignOp::Let,
        fuel > 0,
        eval(o, value, env, count, (fuel - 1) as nat) matches Ok(v) && !v.env.is_bound(name),
    ensures
        ({
            let v = eval(o, value, env, count, (fuel - 1) as nat)->Ok_0;
            eval(o, Node::Assign(op, name, Box::new(value)), env, count, fuel) == Ok::<
                Outcome,
                Stop,
            >(Outcome { value: Node::Nothing, steps: v.steps + 2, ..v })
        }),
{
}

/// A variable has the shape of the value that was bound to it last: after a
/// `let`, and after an assignment to a variable, the name reads as the new
/// number or text, whatever it held before. An assignment to a name that is
/// no variable changes nothing.
pub proof fn law_binding_changes_the_shape(
    o: Numbers,
    env: Environment,
    name: Seq<char>,
    value: Node,
)
    requires
        value is Number || value is Text,
    ensures
        written(o, AssignOp::Let, name, value, env).read(name) == value,
        env.is_bound(name) ==> written(o, AssignOp::Change, name, value, env).read(name) == value,
        !env.is_bound(name) ==> written(o, AssignOp::Change, name, value, env) == env,
{
}

/// A number is never equal to a value that is not a number: whatever the
/// arithmetic, the equality check of the two is false and the inequality
/// check is true, on either side.
pub proof fn law_number_differs_from_text(o: Numbers, number: Node, other: Node)
    requires
        number is Number,
        !(other is Number),
    ensures
        binary_value(o, BinaryOp::EqCheck, number, other) == Node::Boolean(false),
        binary_value(o, BinaryOp::EqCheck, other, number) == Node::Boolean(false),
        binary_value(o, BinaryOp::NeqCheck, number, other) == Node::Boolean(true),
        binary_value(o, BinaryOp::NeqCheck, other, number) == Node::Boolean(true),
{
}

/// What the body of an incrementing loop does to variables does not
/// escape: the environment after the loop is the environment in which the
/// loop started, as the evaluation of the two bounds left it. The counter is
/// no variable after the loop unless it was one before.
pub proof fn law_incrementing_loop_changes_nothing(
    o: Numbers,
    name: Seq<char>,
    lower: Node,
    upper: Node,
    body: Seq<Node>,
    env: Environment,
    count: int,
    fuel: nat,
)
    requires
        eval(
            o,
            Node::IncrementingLoop(name, Box::new(lower), Box::new(upper), body),
            env,
            count,
            fuel,
        ) is Ok,
    ensures
        ({
            let r = eval(
                o,
                Node::IncrementingLoop(name, Box::new(lower), Box::new(upper), body),
                env,
                count,
                fuel,
            )->Ok_0;
            let less = (fuel - 1) as nat;
            let lo = eval(o, lower, env, count, less);
            let hi = eval(o, upper, lo->Ok_0.env, bound_of(o, lo->Ok_0.value), less);
            &&& r.value == Node::Nothing
            &&& lo is Ok
            &&& hi is Ok
            &&& r.env == hi->Ok_0.env
            &&& (lower is Number || lower is Text || lower is Boolean || lower is Variable) && (
            upper is Number || upper is Text || upper is Boolean || upper is Variable) ==> r.env
                == env
        }),
{
    let less = (fuel - 1) as nat;
    let lo = eval(o, lower, env, count, less)->Ok_0;
    let low = bound_of(o, lo.value);
    let hi = eval(o, upper, lo.env, low, less)->Ok_0;
    if (lower is Number || lower is Text || lower is Boolean || lower is Variable) && (
    upper is Number || upper is Text || upper is Boolean || upper is Variable) {
        assert(lo.env == env);
        assert(hi.env == env);
    }
}

/// What the body of a conditional loop does to variables escapes: while
/// the condition is the boolean true, a round of the body runs in the
/// current environment, and the loop goes on from the environment that the
/// round left; when the condition is anything else, the loop ends in the
/// environment that the evaluation of the condition left.
pub proof fn law_conditional_loop_runs_in_place(
    o: Numbers,
    cond: Node,
    body: Seq<Node>,
    env: Environment,
    count: int,
    fuel: nat,
)
    requires
        eval_while(o, cond, body, env, count, fuel) is Ok,
    ensures
        ({
            let r = eval_while(o, cond, body, env, count, fuel)->Ok_0;
            let c = eval(o, cond, env, count, fuel)->Ok_0;
            let round = eval_list(o, Mode::Round, body, 0, c.env, c.count, c.value, fuel);
            let again = eval_while(
                o,
                cond,
                body,
                round->Ok_0.env,
                round->Ok_0.count,
                (fuel - 1) as nat,
            );
            &&& eval(o, cond, env, count, fuel) is Ok
            &&& c.value != Node::Boolean(true) ==> r.env == c.env && r.value == Node::Nothing
            &&& c.value == Node::Boolean(true) ==> round is Ok && again is Ok && r.env
                == again->Ok_0.env && r.out == c.out + round->Ok_0.out + again->Ok_0.out
        }),
{
}

/// A step takes the answer in before anything else: to hand an answer to a
/// step is to put it into the machine and to hand nothing to the step.
pub proof fn law_step_takes_the_answer_first(m: MachineView, answer: Answer)
    ensures
        step_spec(m, answer) == step_spec(absorb(m, answer), Answer::Nothing),
{
}

/// Binding arguments keeps an environment well shaped.
proof fn lemma_arguments_keep_the_shape(
    callee: Environment,
    params: Seq<Seq<char>>,
    args: Seq<Node>,
    caller: Environment,
    from: int,
)
    requires
        callee.well_shaped(),
        caller.well_shaped(),
    ensures
        bind_arguments(callee, params, args, caller, from).well_shaped(),
    decreases params.len() - from,
{
    if 0 <= from < params.len() && from < args.len() {
        lemma_arguments_keep_the_shape(
            bind_argument(callee, params[from], args[from], caller),
            params,
            args,
            caller,
            from + 1,
        );
    }
}

/// A write keeps an environment well shaped.
proof fn lemma_writing_keeps_the_shape(
    o: Numbers,
    op: AssignOp,
    name: Seq<char>,
    value: Node,
    env: Environment,
)
    requires
        env.well_shaped(),
    ensures
        written(o, op, name, value, env).well_shaped(),
{
}

/// The evaluation of a node keeps an environment well shaped.
proof fn lemma_eval_keeps_the_shape(o: Numbers, node: Node, env: Environment, count: int, fuel: nat)
    requires
        env.well_shaped(),
    ensures
        eval(o, node, env, count, fuel) matches Ok(r) ==> r.env.well_shaped(),
    decreases fuel, 0nat,
{
    if fuel > 0 {
        let less = (fuel - 1) as nat;
        match node {
            Node::Binary(op, lhs, rhs) => {
                lemma_eval_keeps_the_shape(o, *lhs, env, count, less);
                match eval(o, *lhs, env, count, less) {
                    Ok(a) => {
                        lemma_eval_keeps_the_shape(o, *rhs, a.env, a.count, less);
                    },
                    Err(_) => {},
                }
            },
            Node::Assign(op, name, value) => {
                lemma_eval_keeps_the_shape(o, *value, env, count, less);
                match eval(o, *value, env, count, less) {
                    Ok(v) => {
                        lemma_writing_keeps_the_shape(o, op, name, v.value, v.env);
                    },
                    Err(_) => {},
                }
            },
            Node::FunctionCall(name, args) => {
                if args.len() > 0 {
                    lemma_eval_keeps_the_shape(o, args[0], env, count, less);
                }
                assert(eval_call(o, name, args, env, count, less) matches Ok(r)
                    ==> r.env.well_shaped());
            },
            Node::IfStatement(cond, body, has_else, else_body) => {
                lemma_eval_keeps_the_shape(o, *cond, env, count, less);
                match eval(o, *cond, env, count, less) {
                    Ok(c) => {
                        lemma_list_keeps_the_shape(
                            o,
                            Mode::Branch,
                            body,
                            0,
                            c.env,
                            c.count,
                            Node::Nothing,
                            less,
                        );
                        lemma_list_keeps_the_shape(
                            o,
                            Mode::Branch,
                            else_body,
                            0,
                            c.env,
                            c.count,
                            Node::Nothing,
                            less,
                        );
                    },
                    Err(_) => {},
                }
            },
            Node::ConditionalLoop(cond, body) => {
                lemma_while_keeps_the_shape(o, *cond, body, env, count, less);
            },
            Node::IncrementingLoop(name, lower, upper, body) => {
                lemma_eval_keeps_the_shape(o, *lower, env, count, less);
                match eval(o, *lower, env, count, less) {
                    Ok(lo) => {
                        lemma_eval_keeps_the_shape(o, *upper, lo.env, bound_of(o, lo.value), less);
                    },
                    Err(_) => {},
                }
            },
            _ => {},
        }
    }
}

/// The evaluation of a list of statements keeps an environment well shaped.
proof fn lemma_list_keeps_the_shape(
    o: Numbers,
    mode: Mode,
    body: Seq<Node>,
    from: int,
    env: Environment,
    count: int,
    last: Node,
    fuel: nat,
)
    requires
        env.well_shaped(),
    ensures
        eval_list(o, mode, body, from, env, count, last, fuel) matches Ok(r)
            ==> r.env.well_shaped(),
    decreases fuel, body.len() - from + 1,
{
    if !((mode == Mode::Round && from > 0 && last is LoopBreak) || !(0 <= from < body.len())) {
        lemma_eval_keeps_the_shape(o, body[from], env, count, fuel);
        match eval(o, body[from], env, count, fuel) {
            Ok(s) => {
                lemma_list_keeps_the_shape(o, mode, body, from + 1, s.env, s.count, s.value, fuel);
            },
            Err(_) => {},
        }
    }
}

/// The evaluation of a conditional loop keeps an environment well shaped.
proof fn lemma_while_keeps_the_shape(
    o: Numbers,
    cond: Node,
    body: Seq<Node>,
    env: Environment,
    count: int,
    fuel: nat,
)
    requires
        env.well_shaped(),
    ensures
        eval_while(o, cond, body, env, count, fuel) matches Ok(r) ==> r.env.well_shaped(),
    decreases fuel, body.len() + 2,
{
    lemma_eval_keeps_the_shape(o, cond, env, count, fuel);
    match eval(o, cond, env, count, fuel) {
        Ok(c) => {
            lemma_list_keeps_the_shape(o, Mode::Round, body, 0, c.env, c.count, c.value, fuel);
            match eval_list(o, Mode::Round, body, 0, c.env, c.count, c.value, fuel) {
                Ok(round) => {
                    if fuel > 0 {
                        lemma_while_keeps_the_shape(
                            o,
                            cond,
                            body,
                            round.env,
                            round.count,
                            (fuel - 1) as nat,
                        );
                    }
                },
                Err(_) => {},
            }
        },
        Err(_) => {},
    }
}

/// Evaluation keeps an environment well shaped: in the environment that an
/// evaluation leaves, no name is a number variable and a text variable at
/// once, every number variable holds a number and every text variable a
/// text, if that was so in the environment in which it started.
pub proof fn law_evaluation_keeps_the_shape(
    o: Numbers,
    node: Node,
    env: Environment,
    count: int,
    fuel: nat,
)
    requires
        env.well_shaped(),
    ensures
        eval(o, node, env, count, fuel) matches Ok(r) ==> r.env.well_shaped(),
{
    lemma_eval_keeps_the_shape(o, node, env, count, fuel);
}


/// A line ends at or after the place where it starts, and holds no line
/// break.
proof fn lemma_line_end(s: Seq<char>, from: int)
    requires
        0 <= from <= s.len(),
    ensures
        from <= line_end(s, from) <= s.len(),
        forall|k: int| from <= k < line_end(s, from) ==> s[k] != '\n',
    decreases s.len() - from,
{
    if from < s.len() && s[from] != '\n' {
        lemma_line_end(s, from + 1);
    }
}

/// The lines that are kept hold no line break, and only characters of the
/// text.
proof fn lemma_kept_lines(s: Seq<char>, from: int)
    requires
        0 <= from <= s.len(),
    ensures
        forall|i: int|
            0 <= i < kept_lines(s, from).len() ==> (#[trigger] kept_lines(s, from)[i]) != '\n'
                && s.contains(kept_lines(s, from)[i]),
    decreases s.len() - from,
{
    lemma_line_end(s, from);
    let end = line_end(s, from);
    let line = s.subrange(from, end);
    let kept = if is_comment(line) {
        Seq::<char>::empty()
    } else {
        line
    };
    let all = kept_lines(s, from);
    assert forall|i: int| 0 <= i < kept.len() implies kept[i] != '\n' && s.contains(kept[i]) by {
        assert(kept[i] == s[from + i]);
    }
    if end < s.len() {
        lemma_kept_lines(s, end + 1);
        let rest = kept_lines(s, end + 1);
        assert(all == kept + rest);
        assert forall|i: int| 0 <= i < all.len() implies (#[trigger] all[i]) != '\n' && s.contains(
            all[i],
        ) by {
            if i < kept.len() {
                assert(all[i] == kept[i]);
            } else {
                assert(all[i] == rest[i - kept.len()]);
            }
        }
    } else {
        assert(all == kept);
    }
}

/// Cleaned text is one line without carriage returns: it holds no line
/// break and no carriage return, and every character of it is one of the
/// raw text.
pub proof fn law_clean_text_is_one_line(raw: Seq<char>)
    ensures
        forall|i: int|
            0 <= i < preprocess_spec(raw).len() ==> {
                let c = #[trigger] preprocess_spec(raw)[i];
                c != '\n' && c != '\r' && raw.contains(c)
            },
{
    let cleaned = without_returns(raw);
    let keep = |c: char| c != '\r';
    lemma_kept_lines(cleaned, 0);
    assert forall|i: int| 0 <= i < preprocess_spec(raw).len() implies {
        let c = #[trigger] preprocess_spec(raw)[i];
        c != '\n' && c != '\r' && raw.contains(c)
    } by {
        let c = preprocess_spec(raw)[i];
        assert(cleaned.contains(c));
        let j = choose|j: int| 0 <= j < cleaned.len() && cleaned[j] == c;
        raw.lemma_filter_pred(keep, j);
        raw.lemma_filter_contains_rev(keep, c);
    }
}


/// More fuel changes nothing for a node.
proof fn lemma_fuel(o: Numbers, node: Node, env: Environment, count: int, fuel: nat, more: nat)
    requires
        fuel <= more,
        eval(o, node, env, count, fuel) != Err::<Outcome, Stop>(Stop::OutOfFuel),
    ensures
        eval(o, node, env, count, more) == eval(o, node, env, count, fuel),
    decreases fuel, 0nat,
{
    if fuel > 0 {
        let less = (fuel - 1) as nat;
        let most = (more - 1) as nat;
        match node {
            Node::Binary(op, lhs, rhs) => {
                lemma_fuel(o, *lhs, env, count, less, most);
                match eval(o, *lhs, env, count, less) {
                    Ok(a) => {
                        lemma_fuel(o, *rhs, a.env, a.count, less, most);
                    },
                    Err(_) => {},
                }
            },
            Node::Assign(_, _, value) => {
                lemma_fuel(o, *value, env, count, less, most);
            },
            Node::FunctionCall(name, args) => {
                lemma_fuel_call(o, name, args, env, count, less, most);
            },
            Node::IfStatement(cond, body, has_else, else_body) => {
                lemma_fuel(o, *cond, env, count, less, most);
                match eval(o, *cond, env, count, less) {
                    Ok(c) => {
                        if truth_of(o, c.value) || has_else {
                            let taken = if truth_of(o, c.value) {
                                body
                            } else {
                                else_body
                            };
                            lemma_fuel_list(
                                o,
                                Mode::Branch,
                                taken,
                                0,
                                c.env,
                                c.count,
                                Node::Nothing,
                                less,
                                most,
                            );
                        }
                    },
                    Err(_) => {},
                }
            },
            Node::ConditionalLoop(cond, body) => {
                lemma_fuel_while(o, *cond, body, env, count, less, most);
            },
            Node::IncrementingLoop(name, lower, upper, body) => {
                lemma_fuel(o, *lower, env, count, less, most);
                match eval(o, *lower, env, count, less) {
                    Ok(lo) => {
                        let low = bound_of(o, lo.value);
                        lemma_fuel(o, *upper, lo.env, low, less, most);
                        match eval(o, *upper, lo.env, low, less) {
                            Ok(hi) => {
                                let high = bound_of(o, hi.value);
                                let seed = Node::Number(number_of(lo.value));
                                lemma_fuel_rounds(
                                    o,
                                    name,
                                    body,
                                    low,
                                    high,
                                    hi.env.bind(name, seed),
                                    high,
                                    less,
                                    most,
                                );
                            },
                            Err(_) => {},
                        }
                    },
                    Err(_) => {},
                }
            },
            _ => {},
        }
    }
}

/// More fuel changes nothing for a call.
proof fn lemma_fuel_call(
    o: Numbers,
    name: Seq<char>,
    args: Seq<Node>,
    env: Environment,
    count: int,
    fuel: nat,
    more: nat,
)
    requires
        fuel <= more,
        eval_call(o, name, args, env, count, fuel) != Err::<Outcome, Stop>(Stop::OutOfFuel),
    ensures
        eval_call(o, name, args, env, count, more) == eval_call(o, name, args, env, count, fuel),
    decreases fuel, 1nat,
{
    if name == "print"@ || name == "return"@ {
        if args.len() > 0 {
            lemma_fuel(o, args[0], env, count, fuel, more);
        }
    } else if env.functions.contains_key(name) {
        match env.functions[name] {
            Node::FunctionDecl(_, params, body) => {
                if args.len() >= params.len() && fuel > 0 {
                    lemma_fuel_list(
                        o,
                        Mode::Body,
                        body,
                        0,
                        bind_arguments(env.child(), params, args, env, 0),
                        count,
                        Node::Nothing,
                        (fuel - 1) as nat,
                        (more - 1) as nat,
                    );
                }
            },
            _ => {},
        }
    }
}

/// More fuel changes nothing for a list of statements.
proof fn lemma_fuel_list(
    o: Numbers,
    mode: Mode,
    body: Seq<Node>,
    from: int,
    env: Environment,
    count: int,
    last: Node,
    fuel: nat,
    more: nat,
)
    requires
        fuel <= more,
        eval_list(o, mode, body, from, env, count, last, fuel) != Err::<Outcome, Stop>(
            Stop::OutOfFuel,
        ),
    ensures
        eval_list(o, mode, body, from, env, count, last, more) == eval_list(
            o,
            mode,
            body,
            from,
            env,
            count,
            last,
            fuel,
        ),
    decreases fuel, body.len() - from + 1,
{
    if !((mode == Mode::Round && from > 0 && last is LoopBreak) || !(0 <= from < body.len())) {
        lemma_fuel(o, body[from], env, count, fuel, more);
        match eval(o, body[from], env, count, fuel) {
            Ok(s) => {
                lemma_fuel_list(o, mode, body, from + 1, s.env, s.count, s.value, fuel, more);
            },
            Err(_) => {},
        }
    }
}

/// More fuel changes nothing for a conditional loop.
proof fn lemma_fuel_while(
    o: Numbers,
    cond: Node,
    body: Seq<Node>,
    env: Environment,
    count: int,
    fuel: nat,
    more: nat,
)
    requires
        fuel <= more,
        eval_while(o, cond, body, env, count, fuel) != Err::<Outcome, Stop>(Stop::OutOfFuel),
    ensures
        eval_while(o, cond, body, env, count, more) == eval_while(o, cond, body, env, count, fuel),
    decreases fuel, body.len() + 2,
{
    lemma_fuel(o, cond, env, count, fuel, more);
    match eval(o, cond, env, count, fuel) {
        Ok(c) => {
            if c.value == Node::Boolean(true) {
                lemma_fuel_list(o, Mode::Round, body, 0, c.env, c.count, c.value, fuel, more);
                match eval_list(o, Mode::Round, body, 0, c.env, c.count, c.value, fuel) {
                    Ok(round) => {
                        if fuel > 0 {
                            lemma_fuel_while(
                                o,
                                cond,
                                body,
                                round.env,
                                round.count,
                                (fuel - 1) as nat,
                                (more - 1) as nat,
                            );
                        }
                    },
                    Err(_) => {},
                }
            }
        },
        Err(_) => {},
    }
}

/// More fuel changes nothing for the rounds of an incrementing loop.
proof fn lemma_fuel_rounds(
    o: Numbers,
    name: Seq<char>,
    body: Seq<Node>,
    low: int,
    high: int,
    env: Environment,
    count: int,
    fuel: nat,
    more: nat,
)
    requires
        fuel <= more,
        eval_rounds(o, name, body, low, high, env, count, fuel) != Err::<Outcome, Stop>(
            Stop::OutOfFuel,
        ),
    ensures
        eval_rounds(o, name, body, low, high, env, count, more) == eval_rounds(
            o,
            name,
            body,
            low,
            high,
            env,
            count,
            fuel,
        ),
    decreases fuel,
        body.len() + 2 + if low < high {
            high - low
        } else {
            0
        },
{
    if low < high {
        let number = (o.from_int)(low);
        lemma_fuel_list(o, Mode::Round, body, 0, env.bind(name, number), count, number, fuel, more);
        match eval_list(o, Mode::Round, body, 0, env.bind(name, number), count, number, fuel) {
            Ok(round) => {
                lemma_fuel_rounds(
                    o,
                    name,
                    body,
                    low + 1,
                    high,
                    round.env,
                    round.count,
                    fuel,
                    more,
                );
            },
            Err(_) => {},
        }
    }
}

/// The meaning of a node does not depend on the fuel, as long as there is
/// enough of it: if the evaluation of a node ends, with an outcome or with a
/// fault, then it ends in the same way with any greater amount of fuel.
pub proof fn law_more_fuel_changes_nothing(
    o: Numbers,
    node: Node,
    env: Environment,
    count: int,
    fuel: nat,
    more: nat,
)
    requires
        fuel <= more,
        eval(o, node, env, count, fuel) != Err::<Outcome, Stop>(Stop::OutOfFuel),
    ensures
        eval(o, node, env, count, more) == eval(o, node, env, count, fuel),
{
    lemma_fuel(o, node, env, count, fuel, more);
}

} // verus!
