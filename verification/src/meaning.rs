//! What a node means: the value it has, the environment it leaves and the
//! lines it prints, given by recursion over the syntax tree.
//!
//! The arithmetic on numbers is not defined here. The meaning is stated for
//! every way of doing it: a `Numbers` says what the caller answers to each
//! request. A loop may run forever, so the recursion is bounded by `fuel`,
//! the depth to which evaluations may nest; with too little of it the
//! meaning is `OutOfFuel`.

use vstd::prelude::*;
use crate::ast::{AssignOp, BinaryOp, Node};
use crate::env::{bind_arguments, Environment};
use crate::semantics::{
    absorb, boolean_text, number_of, step_spec, text_of, Answer, Ask, Fault, MachineView,
};

verus! {

/// The caller's arithmetic: what it answers when asked to apply an
/// operation to two numbers, to render a number, to truncate a number to an
/// integer, and to make the number of an integer.
pub struct Numbers {
    pub arith: spec_fn(BinaryOp, Seq<char>, Seq<char>) -> Node,
    pub show: spec_fn(Seq<char>) -> Node,
    pub to_int: spec_fn(Seq<char>) -> int,
    pub from_int: spec_fn(int) -> Node,
}

/// What an evaluation that ends leaves behind: the value, the environment,
/// the integer received last, the lines printed, and the number of steps
/// that the machine takes for it.
pub struct Outcome {
    pub value: Node,
    pub env: Environment,
    pub count: int,
    pub out: Seq<Seq<char>>,
    pub steps: nat,
}

/// What an evaluation that is abandoned leaves behind: the fault, the
/// environment and the integer received last at that moment, the lines
/// printed before, and the number of steps that the machine takes up to and
/// including the one that finds the fault.
pub struct Halt {
    pub fault: Fault,
    pub env: Environment,
    pub count: int,
    pub out: Seq<Seq<char>>,
    pub steps: nat,
}

/// Why an evaluation has no outcome.
pub enum Stop {
    /// Evaluations nest deeper than the fuel allows.
    OutOfFuel,
    /// Evaluation was abandoned.
    Fault(Halt),
}

/// The stop of an evaluation in which `steps` steps, which printed `out`,
/// came before what stopped as `stop`.
pub open spec fn later(stop: Stop, out: Seq<Seq<char>>, steps: nat) -> Stop {
    match stop {
        Stop::OutOfFuel => Stop::OutOfFuel,
        Stop::Fault(h) => Stop::Fault(Halt { out: out + h.out, steps: steps + h.steps, ..h }),
    }
}

/// The stop `stop` of an evaluation in an environment of its own, as it is
/// for the evaluation around it, whose environment is `env`.
pub open spec fn outside(stop: Stop, env: Environment) -> Stop {
    match stop {
        Stop::OutOfFuel => Stop::OutOfFuel,
        Stop::Fault(h) => Stop::Fault(Halt { env, ..h }),
    }
}

/// The stop of an evaluation that finds `fault` in its first step.
pub open spec fn fault_at_once(fault: Fault, env: Environment, count: int) -> Stop {
    Stop::Fault(Halt { fault, env, count, out: Seq::empty(), steps: 1 })
}

/// How a list of statements runs.
#[derive(Clone, Copy, Debug, PartialEq, Eq, Structural)]
pub enum Mode {
    /// The body of a function: its value is that of the last statement.
    Body,
    /// A branch of a conditional: its value is nothing.
    Branch,
    /// One round of a loop: it ends early after a statement whose value is
    /// the loop-break mark.
    Round,
}

/// The outcome of an evaluation that takes one step and prints nothing.
pub open spec fn at_once(value: Node, env: Environment, count: int) -> Outcome {
    Outcome { value, env, count, out: Seq::empty(), steps: 1 }
}

/// The value of `op` applied to the values of its operands.
/// - `Add` of two numbers is their sum; if one operand is not a number, it
///   is the text of the left operand followed by the text of the right one,
///   a number rendered in decimal.
/// - `EqCheck` and `NeqCheck` of two numbers compare them; a number and
///   anything else are unequal; two values that are not numbers are compared
///   by their texts.
/// - Every other operation takes an operand that is not a number as zero.
pub open spec fn binary_value(o: Numbers, op: BinaryOp, lhs: Node, rhs: Node) -> Node {
    let both = lhs is Number && rhs is Number;
    let one = lhs is Number || rhs is Number;
    match op {
        BinaryOp::Add => {
            if both {
                (o.arith)(op, number_of(lhs), number_of(rhs))
            } else if lhs is Number {
                Node::Text(text_of((o.show)(number_of(lhs))) + text_of(rhs))
            } else if rhs is Number {
                Node::Text(text_of(lhs) + text_of((o.show)(number_of(rhs))))
            } else {
                Node::Text(text_of(lhs) + text_of(rhs))
            }
        },
        BinaryOp::EqCheck => {
            if both {
                (o.arith)(op, number_of(lhs), number_of(rhs))
            } else {
                Node::Boolean(!one && text_of(lhs) == text_of(rhs))
            }
        },
        BinaryOp::NeqCheck => {
            if both {
                (o.arith)(op, number_of(lhs), number_of(rhs))
            } else {
                Node::Boolean(one || text_of(lhs) != text_of(rhs))
            }
        },
        _ => (o.arith)(op, number_of(lhs), number_of(rhs)),
    }
}

/// Whether `op` on these values renders a number before it joins two texts.
pub open spec fn renders(op: BinaryOp, lhs: Node, rhs: Node) -> bool {
    op == BinaryOp::Add && (lhs is Number) != (rhs is Number)
}

/// Whether a value that stands as a condition of a conditional is true: a
/// number if it is not zero, a boolean if it is true, nothing else.
pub open spec fn truth_of(o: Numbers, value: Node) -> bool {
    match value {
        Node::Number(n) => (o.arith)(BinaryOp::NeqCheck, n, "0"@) == Node::Boolean(true),
        Node::Boolean(b) => b,
        _ => false,
    }
}

/// The lines that `print` writes for a value: one for a number, a text or a
/// boolean, none for anything else.
pub open spec fn lines_of(o: Numbers, value: Node) -> Seq<Seq<char>> {
    match value {
        Node::Number(n) => match (o.show)(n) {
            Node::Text(t) => seq![t],
            _ => Seq::empty(),
        },
        Node::Text(t) => seq![t],
        Node::Boolean(b) => seq![boolean_text(b)],
        _ => Seq::empty(),
    }
}

/// The integer of a bound of an incrementing loop: the truncated number, or
/// zero for a value that is not a number.
pub open spec fn bound_of(o: Numbers, value: Node) -> int {
    match value {
        Node::Number(n) => (o.to_int)(n),
        _ => 0,
    }
}

/// The environment after `value` was written to `name` by `op`.
pub open spec fn written(o: Numbers, op: AssignOp, name: Seq<char>, value: Node, env: Environment)
    -> Environment {
    match op {
        AssignOp::Let => env.bind(name, value),
        AssignOp::Change => env.change(name, value),
        AssignOp::AddEq => {
            if value is Text && env.texts.contains_key(name) {
                Environment {
                    texts: env.texts.insert(
                        name,
                        Node::Text(text_of(env.texts[name]) + text_of(value)),
                    ),
                    ..env
                }
            } else if value is Number && env.numbers.contains_key(name) {
                let sum = (o.arith)(
                    BinaryOp::Add,
                    number_of(env.numbers[name]),
                    number_of(value),
                );
                if sum is Number {
                    env.bind(name, sum)
                } else {
                    env
                }
            } else {
                env
            }
        },
        AssignOp::SubEq => {
            if value is Number && env.numbers.contains_key(name) {
                let difference = (o.arith)(
                    BinaryOp::Sub,
                    number_of(env.numbers[name]),
                    number_of(value),
                );
                if difference is Number {
                    env.bind(name, difference)
                } else {
                    env
                }
            } else {
                env
            }
        },
    }
}

/// Whether the write asks for arithmetic.
pub open spec fn computes(op: AssignOp, name: Seq<char>, value: Node, env: Environment) -> bool {
    match op {
        AssignOp::AddEq => !(value is Text && env.texts.contains_key(name)) && value is Number
            && env.numbers.contains_key(name),
        AssignOp::SubEq => value is Number && env.numbers.contains_key(name),
        _ => false,
    }
}

/// The meaning of `node` in the environment `env`.
/// - A literal is its own value; a variable reads as what it is bound to,
///   or as nothing; a declaration enters the function table.
/// - An operation evaluates its left operand, then its right one.
/// - A write evaluates its value and writes it.
/// - A call, a conditional and the loops are as their own functions say.
pub open spec fn eval(o: Numbers, node: Node, env: Environment, count: int, fuel: nat) -> Result<
    Outcome,
    Stop,
>
    decreases fuel, 0nat,
{
    if fuel == 0 {
        Err(Stop::OutOfFuel)
    } else {
        let fuel = (fuel - 1) as nat;
        match node {
            Node::Nothing => Ok(at_once(Node::Nothing, env, count)),
            Node::Number(_) | Node::Text(_) | Node::Boolean(_) | Node::LoopBreak => Ok(
                at_once(node, env, count),
            ),
            Node::Variable(name) => Ok(at_once(env.read(name), env, count)),
            Node::FunctionDecl(name, params, body) => Ok(
                at_once(Node::Nothing, env.declare(name, params, body), count),
            ),
            Node::Binary(op, lhs, rhs) => match eval(o, *lhs, env, count, fuel) {
                Err(stop) => Err(later(stop, Seq::empty(), 1)),
                Ok(a) => match eval(o, *rhs, a.env, a.count, fuel) {
                    Err(stop) => Err(later(stop, a.out, a.steps + 2)),
                    Ok(b) => Ok(
                        Outcome {
                            value: binary_value(o, op, a.value, b.value),
                            env: b.env,
                            count: b.count,
                            out: a.out + b.out,
                            steps: a.steps + b.steps + if renders(op, a.value, b.value) {
                                4nat
                            } else {
                                3nat
                            },
                        },
                    ),
                },
            },
            Node::Assign(op, name, value) => match eval(o, *value, env, count, fuel) {
                Err(stop) => Err(later(stop, Seq::empty(), 1)),
                Ok(v) => Ok(
                    Outcome {
                        value: Node::Nothing,
                        env: written(o, op, name, v.value, v.env),
                        count: v.count,
                        out: v.out,
                        steps: v.steps + if computes(op, name, v.value, v.env) {
                            3nat
                        } else {
                            2nat
                        },
                    },
                ),
            },
            Node::FunctionCall(name, args) => eval_call(o, name, args, env, count, fuel),
            Node::IfStatement(cond, body, has_else, else_body) => match eval(
                o,
                *cond,
                env,
                count,
                fuel,
            ) {
                Err(stop) => Err(later(stop, Seq::empty(), 1)),
                Ok(c) => {
                    let tested: nat = if c.value is Number {
                        3
                    } else {
                        2
                    };
                    if truth_of(o, c.value) || has_else {
                        match eval_list(
                            o,
                            Mode::Branch,
                            if truth_of(o, c.value) {
                                body
                            } else {
                                else_body
                            },
                            0,
                            c.env,
                            c.count,
                            Node::Nothing,
                            fuel,
                        ) {
                            Err(stop) => Err(later(stop, c.out, c.steps + tested)),
                            Ok(b) => Ok(
                                Outcome {
                                    value: Node::Nothing,
                                    env: b.env,
                                    count: b.count,
                                    out: c.out + b.out,
                                    steps: c.steps + b.steps + tested,
                                },
                            ),
                        }
                    } else {
                        Ok(
                            Outcome {
                                value: Node::Nothing,
                                env: c.env,
                                count: c.count,
                                out: c.out,
                                steps: c.steps + tested,
                            },
                        )
                    }
                },
            },
            Node::ConditionalLoop(cond, body) => eval_while(o, *cond, body, env, count, fuel),
            Node::IncrementingLoop(name, lower, upper, body) => match eval(
                o,
                *lower,
                env,
                count,
                fuel,
            ) {
                Err(stop) => Err(later(stop, Seq::empty(), 1)),
                Ok(lo) => {
                    let low = bound_of(o, lo.value);
                    match eval(o, *upper, lo.env, low, fuel) {
                        Err(stop) => Err(later(stop, lo.out, lo.steps + 3)),
                        Ok(hi) => {
                            let high = bound_of(o, hi.value);
                            let seed = Node::Number(number_of(lo.value));
                            match eval_rounds(
                                o,
                                name,
                                body,
                                low,
                                high,
                                hi.env.bind(name, seed),
                                high,
                                fuel,
                            ) {
                                Err(stop) => Err(
                                    outside(
                                        later(stop, lo.out + hi.out, lo.steps + hi.steps + 5),
                                        hi.env,
                                    ),
                                ),
                                Ok(rounds) => Ok(
                                    Outcome {
                                        value: Node::Nothing,
                                        env: hi.env,
                                        count: rounds.count,
                                        out: lo.out + hi.out + rounds.out,
                                        steps: lo.steps + hi.steps + rounds.steps + 6,
                                    },
                                ),
                            }
                        },
                    }
                },
            },
        }
    }
}

/// The meaning of a call.
/// - `print` evaluates its first argument and prints it; its value is
///   nothing.
/// - `return` evaluates its first argument and has its value.
/// - A declared function runs its body in an environment of its own, with
///   no variables but the parameters, bound from the arguments as written,
///   and with the caller's functions. Its value is that of the last
///   statement. The caller's environment is as it was.
/// A call of an undeclared function, or with too few arguments, is a
/// fault.
pub open spec fn eval_call(
    o: Numbers,
    name: Seq<char>,
    args: Seq<Node>,
    env: Environment,
    count: int,
    fuel: nat,
) -> Result<Outcome, Stop>
    decreases fuel, 1nat,
{
    if name == "print"@ || name == "return"@ {
        if args.len() == 0 {
            Err(fault_at_once(Fault::MissingArgument(name), env, count))
        } else {
            match eval(o, args[0], env, count, fuel) {
                Err(stop) => Err(later(stop, Seq::empty(), 1)),
                Ok(a) => {
                    if name == "print"@ {
                        Ok(
                            Outcome {
                                value: Node::Nothing,
                                env: a.env,
                                count: a.count,
                                out: a.out + lines_of(o, a.value),
                                steps: a.steps + if a.value is Number {
                                    3nat
                                } else {
                                    2nat
                                },
                            },
                        )
                    } else {
                        Ok(Outcome { steps: a.steps + 1, ..a })
                    }
                },
            }
        }
    } else if !env.functions.contains_key(name) {
        Err(fault_at_once(Fault::UndefinedFunction(name), env, count))
    } else {
        match env.functions[name] {
            Node::FunctionDecl(_, params, body) => {
                if args.len() < params.len() {
                    Err(fault_at_once(Fault::MissingArgument(name), env, count))
                } else if fuel == 0 {
                    Err(Stop::OutOfFuel)
                } else {
                    match eval_list(
                        o,
                        Mode::Body,
                        body,
                        0,
                        bind_arguments(env.child(), params, args, env, 0),
                        count,
                        Node::Nothing,
                        (fuel - 1) as nat,
                    ) {
                        Err(stop) => Err(outside(later(stop, Seq::empty(), 1), env)),
                        Ok(b) => Ok(
                            Outcome {
                                value: b.value,
                                env,
                                count: b.count,
                                out: b.out,
                                steps: b.steps + 2,
                            },
                        ),
                    }
                }
            },
            _ => Ok(at_once(Node::Nothing, env, count)),
        }
    }
}

/// The meaning of the statements of `body` from index `from` on, run in
/// order in one environment; `last` is the value of the statement before.
pub open spec fn eval_list(
    o: Numbers,
    mode: Mode,
    body: Seq<Node>,
    from: int,
    env: Environment,
    count: int,
    last: Node,
    fuel: nat,
) -> Result<Outcome, Stop>
    decreases fuel, body.len() - from + 1,
{
    if (mode == Mode::Round && from > 0 && last is LoopBreak) || !(0 <= from < body.len()) {
        Ok(
            at_once(
                if mode == Mode::Branch {
                    Node::Nothing
                } else {
                    last
                },
                env,
                count,
            ),
        )
    } else {
        match eval(o, body[from], env, count, fuel) {
            Err(stop) => Err(later(stop, Seq::empty(), 1)),
            Ok(s) => match eval_list(o, mode, body, from + 1, s.env, s.count, s.value, fuel) {
                Err(stop) => Err(later(stop, s.out, s.steps + 1)),
                Ok(rest) => Ok(
                    Outcome { out: s.out + rest.out, steps: s.steps + rest.steps + 1, ..rest },
                ),
            },
        }
    }
}

/// The meaning of a conditional loop: the condition is evaluated in the
/// current environment; if it is the boolean true, one round of the body
/// runs there, and the loop goes on from the environment that the round
/// left; else the loop is over, and is nothing.
pub open spec fn eval_while(
    o: Numbers,
    cond: Node,
    body: Seq<Node>,
    env: Environment,
    count: int,
    fuel: nat,
) -> Result<Outcome, Stop>
    decreases fuel, body.len() + 2,
{
    match eval(o, cond, env, count, fuel) {
        Err(stop) => Err(later(stop, Seq::empty(), 1)),
        Ok(c) => {
            if c.value == Node::Boolean(true) {
                match eval_list(o, Mode::Round, body, 0, c.env, c.count, c.value, fuel) {
                    Err(stop) => Err(later(stop, c.out, c.steps + 2)),
                    Ok(round) => {
                        if fuel == 0 {
                            Err(Stop::OutOfFuel)
                        } else {
                            match eval_while(
                                o,
                                cond,
                                body,
                                round.env,
                                round.count,
                                (fuel - 1) as nat,
                            ) {
                                Err(stop) => Err(
                                    later(stop, c.out + round.out, c.steps + round.steps + 2),
                                ),
                                Ok(again) => Ok(
                                    Outcome {
                                        out: c.out + round.out + again.out,
                                        steps: c.steps + round.steps + again.steps + 2,
                                        ..again
                                    },
                                ),
                            }
                        }
                    },
                }
            } else {
                Ok(Outcome { value: Node::Nothing, steps: c.steps + 2, ..c })
            }
        },
    }
}

/// The meaning of the rounds of an incrementing loop from the integer `low`
/// up to, not including, `high`: each round binds the counter to the number
/// of its integer and runs the body, all in the loop's own environment.
pub open spec fn eval_rounds(
    o: Numbers,
    name: Seq<char>,
    body: Seq<Node>,
    low: int,
    high: int,
    env: Environment,
    count: int,
    fuel: nat,
) -> Result<Outcome, Stop>
    decreases fuel,
        body.len() + 2 + if low < high {
            high - low
        } else {
            0
        },
{
    if low < high {
        let number = (o.from_int)(low);
        match eval_list(o, Mode::Round, body, 0, env.bind(name, number), count, number, fuel) {
            Err(stop) => Err(later(stop, Seq::empty(), 2)),
            Ok(round) => match eval_rounds(
                o,
                name,
                body,
                low + 1,
                high,
                round.env,
                round.count,
                fuel,
            ) {
                Err(stop) => Err(later(stop, round.out, round.steps + 2)),
                Ok(rest) => Ok(
                    Outcome {
                        out: round.out + rest.out,
                        steps: round.steps + rest.steps + 2,
                        ..rest
                    },
                ),
            },
        }
    } else {
        Ok(at_once(Node::Nothing, env, count))
    }
}

/// What the caller answers to a request.
pub open spec fn reply_to(o: Numbers, ask: Ask) -> Answer {
    match ask {
        Ask::Arith(op, a, b) => Answer::Value((o.arith)(op, a, b)),
        Ask::Show(n) => Answer::Value((o.show)(n)),
        Ask::ToInt(n) => Answer::Integer((o.to_int)(n)),
        Ask::FromInt(i) => Answer::Value((o.from_int)(i)),
        _ => Answer::Nothing,
    }
}

/// The lines that the caller prints for a request.
pub open spec fn printed(ask: Ask) -> Seq<Seq<char>> {
    match ask {
        Ask::Print(line) => seq![line],
        _ => Seq::empty(),
    }
}

/// The faults that a request tells of.
pub open spec fn told(ask: Ask) -> Seq<Fault> {
    match ask {
        Ask::Fault(fault) => seq![fault],
        _ => Seq::empty(),
    }
}

/// What was seen of a run: the lines printed and the faults told, in order.
pub struct Seen {
    pub out: Seq<Seq<char>>,
    pub faults: Seq<Fault>,
}

impl Seen {
    /// Nothing was seen.
    pub open spec fn nothing() -> Seen {
        Seen { out: Seq::empty(), faults: Seq::empty() }
    }

    /// Only the lines `out` were seen.
    pub open spec fn lines(out: Seq<Seq<char>>) -> Seen {
        Seen { out, faults: Seq::empty() }
    }

    /// What was seen of a run and then of another.
    pub open spec fn and(self, next: Seen) -> Seen {
        Seen { out: self.out + next.out, faults: self.faults + next.faults }
    }
}

/// The machine after one step and the caller's answer to it, and what was
/// seen.
pub open spec fn tick(o: Numbers, m: MachineView) -> (MachineView, Seen) {
    let (after, ask) = step_spec(m, Answer::Nothing);
    (absorb(after, reply_to(o, ask)), Seen { out: printed(ask), faults: told(ask) })
}

/// The machine after `n` steps, each followed by the caller's answer, and
/// what was seen on the way.
pub open spec fn run(o: Numbers, m: MachineView, n: nat) -> (MachineView, Seen)
    decreases n,
{
    if n == 0 {
        (m, Seen::nothing())
    } else {
        let (next, first) = tick(o, m);
        let (last, rest) = run(o, next, (n - 1) as nat);
        (last, first.and(rest))
    }
}

/// The machine `m` after the evaluation with the outcome `r` of a node that
/// was loaded on it: the frames and the outer environments are as they
/// were.
pub open spec fn settled(m: MachineView, r: Outcome) -> MachineView {
    MachineView {
        stack: m.stack,
        envs: m.envs.drop_last().push(r.env),
        acc: r.value,
        count: r.count,
    }
}

/// The machine `m` after the evaluation of a node that was loaded on it
/// was abandoned as `h` says: no frame is left, and of the environments
/// only the first.
pub open spec fn stopped(m: MachineView, h: Halt) -> MachineView {
    MachineView {
        stack: Seq::empty(),
        envs: m.envs.drop_last().push(h.env).take(1),
        acc: Node::Nothing,
        count: h.count,
    }
}

/// Whether the machine `start`, which is `m` with a node loaded on it, does
/// what `result`, the meaning of the node in the current environment of `m`,
/// says: it reaches the state that the outcome describes in as many steps
/// as the outcome says, with the outcome's lines printed and no fault told;
/// or it is abandoned after as many steps as the stop says, with the lines
/// printed before and that one fault told. The meaning of a node that needs
/// more fuel says nothing.
pub open spec fn agrees(
    o: Numbers,
    start: MachineView,
    m: MachineView,
    result: Result<Outcome, Stop>,
) -> bool {
    match result {
        Ok(r) => run(o, start, r.steps) == (settled(m, r), Seen::lines(r.out)),
        Err(Stop::Fault(h)) => run(o, start, h.steps) == (
            stopped(m, h),
            Seen { out: h.out, faults: seq![h.fault] },
        ),
        Err(Stop::OutOfFuel) => true,
    }
}

} // verus!
