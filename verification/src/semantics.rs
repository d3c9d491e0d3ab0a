//! What one step of the evaluator does, on the mathematical values of its
//! state.
//!
//! The evaluator is a machine with a stack of frames, a stack of
//! environments and a register for the value that was computed last. A frame
//! is a node under evaluation and a mark of how far its evaluation has come.
//! Arithmetic on numbers, the rendering of a number and printing are not the
//! machine's work: a step that needs one of them stops with a request, and
//! the next step takes the answer.

use vstd::prelude::*;
use crate::ast::{AssignOp, BinaryOp, Node};
use crate::env::{bind_arguments, Environment};

verus! {

/// How far the evaluation of a frame's node has come.
#[derive(Clone, Copy, Debug, PartialEq, Eq, Structural)]
pub enum Phase {
    /// Nothing was done yet.
    Start,
    /// Operation: the left operand was evaluated.
    Lhs,
    /// Operation: the right operand was evaluated; the left one is saved.
    Rhs,
    /// Addition of a number and a text: the number was rendered.
    Joined,
    /// Write: the value to write was evaluated.
    Value,
    /// Write: the sum or difference to store was computed.
    Stored,
    /// `print`: the argument was evaluated.
    Argument,
    /// `print`: the number to print was rendered.
    Shown,
    /// Call: the body runs; the declaration is saved.
    Body,
    /// The environment on top is to be dropped.
    Leave,
    /// Conditional or loop: the condition was evaluated.
    Condition,
    /// Conditional: the number that is the condition was tested.
    Truth,
    /// Conditional: the body runs.
    Then,
    /// Conditional: the `else` body runs.
    Else,
    /// Conditional loop: the body runs.
    Loop,
    /// Incrementing loop: the lower bound was evaluated.
    Lower,
    /// Incrementing loop: the lower bound was truncated.
    LowerInt,
    /// Incrementing loop: the upper bound was evaluated.
    Upper,
    /// Incrementing loop: the upper bound was truncated.
    UpperInt,
    /// Incrementing loop: the next round is due.
    Next,
    /// Incrementing loop: the counter's number for this round was made.
    Iteration,
    /// Incrementing loop: the body runs.
    Steps,
}

/// A frame: the node under evaluation, a value saved for later, the phase,
/// the index of the next statement of a body, and the bounds of a counter.
pub struct FrameView {
    pub node: Node,
    pub saved: Node,
    pub phase: Phase,
    pub index: int,
    pub low: int,
    pub high: int,
}

/// The state of the machine: the frames, the innermost last; the
/// environments, the current one last; the value computed last; the integer
/// received last.
pub struct MachineView {
    pub stack: Seq<FrameView>,
    pub envs: Seq<Environment>,
    pub acc: Node,
    pub count: int,
}

/// Why evaluation cannot go on.
pub enum Fault {
    /// A call of a function that was not declared.
    UndefinedFunction(Seq<char>),
    /// A call with fewer arguments than the function takes.
    MissingArgument(Seq<char>),
}

/// What a step asks of the caller.
pub enum Ask {
    /// Nothing: take the next step.
    Continue,
    /// Apply the operation to the two numbers, given as numerals, and answer
    /// with the value: a number, or a boolean for a comparison.
    Arith(BinaryOp, Seq<char>, Seq<char>),
    /// Render the number in decimal and answer with the text.
    Show(Seq<char>),
    /// Truncate the number to an integer and answer with it.
    ToInt(Seq<char>),
    /// Answer with the number that the integer is.
    FromInt(int),
    /// Print the text as a line.
    Print(Seq<char>),
    /// Nothing is left to do; this is the value of what was loaded.
    Done(Node),
    /// Evaluation was abandoned.
    Fault(Fault),
}

/// What the caller answers.
pub enum Answer {
    Nothing,
    Value(Node),
    Integer(int),
}

/// The frame that starts the evaluation of `node`.
pub open spec fn start_frame(node: Node) -> FrameView {
    FrameView { node, saved: Node::Nothing, phase: Phase::Start, index: 0, low: 0, high: 0 }
}

/// The frame that drops the environment on top.
pub open spec fn leave_frame() -> FrameView {
    FrameView {
        node: Node::Nothing,
        saved: Node::Nothing,
        phase: Phase::Leave,
        index: 0,
        low: 0,
        high: 0,
    }
}

/// The text of a value: its characters if it is a text, else none.
pub open spec fn text_of(value: Node) -> Seq<char> {
    match value {
        Node::Text(t) => t,
        _ => Seq::empty(),
    }
}

/// The number of a value, as a numeral: its own if it is a number, else
/// zero.
pub open spec fn number_of(value: Node) -> Seq<char> {
    match value {
        Node::Number(n) => n,
        _ => "0"@,
    }
}

/// The text that `print` writes for a boolean.
pub open spec fn boolean_text(b: bool) -> Seq<char> {
    if b {
        "true"@
    } else {
        "false"@
    }
}

impl MachineView {
    /// The current environment.
    pub open spec fn env(self) -> Environment {
        if self.envs.len() > 0 {
            self.envs.last()
        } else {
            Environment::empty()
        }
    }

    /// Whether there is an environment.
    pub open spec fn wf(self) -> bool {
        self.envs.len() > 0
    }

    /// With `f` pushed on the frames.
    pub open spec fn push(self, f: FrameView) -> MachineView {
        MachineView { stack: self.stack.push(f), ..self }
    }

    /// With the evaluation of `node` pushed on the frames.
    pub open spec fn eval(self, node: Node) -> MachineView {
        self.push(start_frame(node))
    }

    /// With `value` as the value computed last.
    pub open spec fn result(self, value: Node) -> MachineView {
        MachineView { acc: value, ..self }
    }

    /// With `count` as the integer received last.
    pub open spec fn counted(self, count: int) -> MachineView {
        MachineView { count, ..self }
    }

    /// With `env` in place of the current environment.
    pub open spec fn with_env(self, env: Environment) -> MachineView {
        MachineView { envs: self.envs.drop_last().push(env), ..self }
    }

    /// With `env` as a new current environment, and a frame that drops it
    /// when the frames pushed after this are done.
    pub open spec fn enter(self, env: Environment) -> MachineView {
        MachineView { envs: self.envs.push(env), ..self }.push(leave_frame())
    }

    /// Abandoned: no frames, and only the first environment.
    pub open spec fn halted(self) -> MachineView {
        MachineView {
            stack: Seq::empty(),
            envs: self.envs.take(1),
            acc: Node::Nothing,
            ..self
        }
    }
}

/// The step was taken and asks nothing.
pub open spec fn go(m: MachineView) -> (MachineView, Ask) {
    (m, Ask::Continue)
}

/// The step abandons evaluation.
pub open spec fn fail(m: MachineView, fault: Fault) -> (MachineView, Ask) {
    (m.halted(), Ask::Fault(fault))
}

/// The machine after it has taken in an answer: a value becomes the value
/// computed last, an integer the integer received last.
pub open spec fn absorb(m: MachineView, answer: Answer) -> MachineView {
    match answer {
        Answer::Nothing => m,
        Answer::Value(v) => m.result(v),
        Answer::Integer(i) => m.counted(i),
    }
}

/// The step for a node without parts: a literal is its own value, a
/// variable reads as what it is bound to or as nothing, a declaration enters
/// the function table and is nothing, and the loop-break mark is its own
/// value.
pub open spec fn leaf_step(m: MachineView, f: FrameView) -> (MachineView, Ask) {
    match f.node {
        Node::Number(_) | Node::Text(_) | Node::Boolean(_) | Node::LoopBreak => go(
            m.result(f.node),
        ),
        Node::Variable(name) => go(m.result(m.env().read(name))),
        Node::FunctionDecl(name, params, body) => go(
            m.with_env(m.env().declare(name, params, body)).result(Node::Nothing),
        ),
        _ => go(m.result(Node::Nothing)),
    }
}

/// The step that applies `op` to the values of both operands.
/// - `Add` of two numbers is their sum; if one operand is not a number, it
///   is the text of the left operand followed by the text of the right one,
///   a number rendered in decimal.
/// - `EqCheck` and `NeqCheck` of two numbers compare them; a number and
///   anything else are unequal; two values that are not numbers are compared
///   by their texts.
/// - Every other operation takes an operand that is not a number as zero.
pub open spec fn combine(m: MachineView, f: FrameView, op: BinaryOp, lhs: Node, rhs: Node) -> (
    MachineView,
    Ask,
) {
    match op {
        BinaryOp::Add => {
            if lhs is Number && rhs is Number {
                (m, Ask::Arith(op, number_of(lhs), number_of(rhs)))
            } else if lhs is Number {
                (
                    m.push(
                        FrameView {
                            phase: Phase::Joined,
                            saved: Node::Text(text_of(rhs)),
                            index: 0,
                            ..f
                        },
                    ),
                    Ask::Show(number_of(lhs)),
                )
            } else if rhs is Number {
                (
                    m.push(
                        FrameView {
                            phase: Phase::Joined,
                            saved: Node::Text(text_of(lhs)),
                            index: 1,
                            ..f
                        },
                    ),
                    Ask::Show(number_of(rhs)),
                )
            } else {
                go(m.result(Node::Text(text_of(lhs) + text_of(rhs))))
            }
        },
        BinaryOp::EqCheck => {
            if lhs is Number && rhs is Number {
                (m, Ask::Arith(op, number_of(lhs), number_of(rhs)))
            } else if lhs is Number || rhs is Number {
                go(m.result(Node::Boolean(false)))
            } else {
                go(m.result(Node::Boolean(text_of(lhs) == text_of(rhs))))
            }
        },
        BinaryOp::NeqCheck => {
            if lhs is Number && rhs is Number {
                (m, Ask::Arith(op, number_of(lhs), number_of(rhs)))
            } else if lhs is Number || rhs is Number {
                go(m.result(Node::Boolean(true)))
            } else {
                go(m.result(Node::Boolean(text_of(lhs) != text_of(rhs))))
            }
        },
        _ => (m, Ask::Arith(op, number_of(lhs), number_of(rhs))),
    }
}

/// The step for an operation: the left operand is evaluated, then the right
/// one, then the operation is applied.
pub open spec fn binary_step(m: MachineView, f: FrameView) -> (MachineView, Ask) {
    match f.node {
        Node::Binary(op, lhs, rhs) => match f.phase {
            Phase::Start => go(m.push(FrameView { phase: Phase::Lhs, ..f }).eval(*lhs)),
            Phase::Lhs => go(
                m.push(FrameView { phase: Phase::Rhs, saved: m.acc, ..f }).eval(*rhs),
            ),
            Phase::Rhs => combine(m, f, op, f.saved, m.acc),
            Phase::Joined => go(
                m.result(
                    Node::Text(
                        if f.index == 0 {
                            text_of(m.acc) + text_of(f.saved)
                        } else {
                            text_of(f.saved) + text_of(m.acc)
                        },
                    ),
                ),
            ),
            _ => go(m.result(Node::Nothing)),
        },
        _ => go(m.result(Node::Nothing)),
    }
}

/// The step that writes `value` to the variable `name`.
/// - `Let` binds the name, whatever it was bound to.
/// - `Change` binds the name if it is a variable already.
/// - `AddEq` appends a text to a text variable, and asks for the sum of a
///   number variable and a number.
/// - `SubEq` asks for the difference of a number variable and a number.
/// A write that does not apply changes nothing. The value of a write is
/// nothing.
pub open spec fn store(m: MachineView, f: FrameView, op: AssignOp, name: Seq<char>, value: Node)
    -> (MachineView, Ask) {
    let env = m.env();
    match op {
        AssignOp::Let => go(m.with_env(env.bind(name, value)).result(Node::Nothing)),
        AssignOp::Change => go(m.with_env(env.change(name, value)).result(Node::Nothing)),
        AssignOp::AddEq => {
            if value is Text && env.texts.contains_key(name) {
                go(
                    m.with_env(
                        Environment {
                            texts: env.texts.insert(
                                name,
                                Node::Text(text_of(env.texts[name]) + text_of(value)),
                            ),
                            ..env
                        },
                    ).result(Node::Nothing),
                )
            } else if value is Number && env.numbers.contains_key(name) {
                (
                    m.push(FrameView { phase: Phase::Stored, ..f }),
                    Ask::Arith(BinaryOp::Add, number_of(env.numbers[name]), number_of(value)),
                )
            } else {
                go(m.result(Node::Nothing))
            }
        },
        AssignOp::SubEq => {
            if value is Number && env.numbers.contains_key(name) {
                (
                    m.push(FrameView { phase: Phase::Stored, ..f }),
                    Ask::Arith(BinaryOp::Sub, number_of(env.numbers[name]), number_of(value)),
                )
            } else {
                go(m.result(Node::Nothing))
            }
        },
    }
}

/// The step for a write: the value is evaluated, then written; a sum or
/// difference that was asked for is stored when it arrives.
pub open spec fn assign_step(m: MachineView, f: FrameView) -> (MachineView, Ask) {
    match f.node {
        Node::Assign(op, name, value) => match f.phase {
            Phase::Start => go(m.push(FrameView { phase: Phase::Value, ..f }).eval(*value)),
            Phase::Value => store(m, f, op, name, m.acc),
            Phase::Stored => go(
                (if m.acc is Number {
                    m.with_env(m.env().bind(name, m.acc))
                } else {
                    m
                }).result(Node::Nothing),
            ),
            _ => go(m.result(Node::Nothing)),
        },
        _ => go(m.result(Node::Nothing)),
    }
}

/// The step that prints `value`: a number is rendered first, a text or a
/// boolean is printed, anything else prints nothing.
pub open spec fn print_value(m: MachineView, f: FrameView, value: Node) -> (MachineView, Ask) {
    match value {
        Node::Number(n) => (m.push(FrameView { phase: Phase::Shown, ..f }), Ask::Show(n)),
        Node::Text(t) => (m.result(Node::Nothing), Ask::Print(t)),
        Node::Boolean(b) => (m.result(Node::Nothing), Ask::Print(boolean_text(b))),
        _ => go(m.result(Node::Nothing)),
    }
}

/// The step that starts a call.
/// - `print` and `return` evaluate their first argument; `return` has its
///   value, `print` prints it and is nothing.
/// - Any other name must be in the function table. The call gets an
///   environment of its own with no variables and the caller's functions,
///   binds the parameters from the arguments as written, and runs the body;
///   its value is that of the last statement.
pub open spec fn call_start(m: MachineView, f: FrameView, name: Seq<char>, args: Seq<Node>) -> (
    MachineView,
    Ask,
) {
    if name == "print"@ {
        if args.len() == 0 {
            fail(m, Fault::MissingArgument(name))
        } else {
            go(m.push(FrameView { phase: Phase::Argument, ..f }).eval(args[0]))
        }
    } else if name == "return"@ {
        if args.len() == 0 {
            fail(m, Fault::MissingArgument(name))
        } else {
            go(m.eval(args[0]))
        }
    } else if !m.env().functions.contains_key(name) {
        fail(m, Fault::UndefinedFunction(name))
    } else {
        match m.env().functions[name] {
            Node::FunctionDecl(_, params, body) => {
                if args.len() < params.len() {
                    fail(m, Fault::MissingArgument(name))
                } else {
                    go(
                        m.enter(bind_arguments(m.env().child(), params, args, m.env(), 0)).push(
                            FrameView {
                                phase: Phase::Body,
                                saved: m.env().functions[name],
                                index: 0,
                                ..f
                            },
                        ).result(Node::Nothing),
                    )
                }
            },
            _ => go(m.result(Node::Nothing)),
        }
    }
}

/// The step that runs the statement at `f.index` of `body` and comes back
/// to the frame with the next index, or keeps the value of the last
/// statement when the body is done.
pub open spec fn body_step(m: MachineView, f: FrameView, body: Seq<Node>) -> (MachineView, Ask) {
    if 0 <= f.index < body.len() {
        go(m.push(FrameView { index: f.index + 1, ..f }).eval(body[f.index]))
    } else {
        go(m)
    }
}

/// The step for a call.
pub open spec fn call_step(m: MachineView, f: FrameView) -> (MachineView, Ask) {
    match f.node {
        Node::FunctionCall(name, args) => match f.phase {
            Phase::Start => call_start(m, f, name, args),
            Phase::Argument => print_value(m, f, m.acc),
            Phase::Shown => match m.acc {
                Node::Text(t) => (m.result(Node::Nothing), Ask::Print(t)),
                _ => go(m.result(Node::Nothing)),
            },
            Phase::Body => match f.saved {
                Node::FunctionDecl(_, _, body) => body_step(m, f, body),
                _ => go(m),
            },
            _ => go(m.result(Node::Nothing)),
        },
        _ => go(m.result(Node::Nothing)),
    }
}

/// The step that runs the statement at `f.index` of a branch and comes back
/// with the next index; the value of a branch that is done is nothing.
pub open spec fn branch_step(m: MachineView, f: FrameView, body: Seq<Node>) -> (MachineView, Ask) {
    if 0 <= f.index < body.len() {
        go(m.push(FrameView { index: f.index + 1, ..f }).eval(body[f.index]))
    } else {
        go(m.result(Node::Nothing))
    }
}

/// The step that takes the branch for a condition that is `truth`.
pub open spec fn take_branch(m: MachineView, f: FrameView, truth: bool, has_else: bool) -> (
    MachineView,
    Ask,
) {
    if truth {
        go(m.push(FrameView { phase: Phase::Then, index: 0, ..f }))
    } else if has_else {
        go(m.push(FrameView { phase: Phase::Else, index: 0, ..f }))
    } else {
        go(m.result(Node::Nothing))
    }
}

/// The step for a conditional: the condition is evaluated; a number is true
/// if it is not zero, a boolean is itself, anything else is false; then the
/// statements of one branch run in the current environment.
pub open spec fn if_step(m: MachineView, f: FrameView) -> (MachineView, Ask) {
    match f.node {
        Node::IfStatement(cond, body, has_else, else_body) => match f.phase {
            Phase::Start => go(m.push(FrameView { phase: Phase::Condition, ..f }).eval(*cond)),
            Phase::Condition => match m.acc {
                Node::Number(n) => (
                    m.push(FrameView { phase: Phase::Truth, ..f }),
                    Ask::Arith(BinaryOp::NeqCheck, n, "0"@),
                ),
                Node::Boolean(b) => take_branch(m, f, b, has_else),
                _ => take_branch(m, f, false, has_else),
            },
            Phase::Truth => match m.acc {
                Node::Boolean(b) => take_branch(m, f, b, has_else),
                _ => take_branch(m, f, false, has_else),
            },
            Phase::Then => branch_step(m, f, body),
            Phase::Else => branch_step(m, f, else_body),
            _ => go(m.result(Node::Nothing)),
        },
        _ => go(m.result(Node::Nothing)),
    }
}

/// The step that runs the statement at `f.index` of a loop's body and comes
/// back with the next index. The round is over when the body is done or the
/// statement before had the loop-break mark as its value; the frame then
/// goes on in the phase `after`.
pub open spec fn round_step(m: MachineView, f: FrameView, body: Seq<Node>, after: Phase) -> (
    MachineView,
    Ask,
) {
    if (f.index > 0 && m.acc is LoopBreak) || !(0 <= f.index < body.len()) {
        go(m.push(FrameView { phase: after, index: 0, ..f }))
    } else {
        go(m.push(FrameView { index: f.index + 1, ..f }).eval(body[f.index]))
    }
}

/// The step for a conditional loop: the condition is evaluated in the
/// current environment; if it is the boolean true, the body runs there and
/// the condition is evaluated again; else the loop is over and is nothing.
pub open spec fn while_step(m: MachineView, f: FrameView) -> (MachineView, Ask) {
    match f.node {
        Node::ConditionalLoop(cond, body) => match f.phase {
            Phase::Start => go(m.push(FrameView { phase: Phase::Condition, ..f }).eval(*cond)),
            Phase::Condition => {
                if m.acc == Node::Boolean(true) {
                    go(m.push(FrameView { phase: Phase::Loop, index: 0, ..f }))
                } else {
                    go(m.result(Node::Nothing))
                }
            },
            Phase::Loop => round_step(m, f, body, Phase::Start),
            _ => go(m.result(Node::Nothing)),
        },
        _ => go(m.result(Node::Nothing)),
    }
}

/// The step that asks for the integer of a bound, or takes zero for a bound
/// that is not a number, and goes on with the frame `then`.
pub open spec fn bound_step(m: MachineView, then: FrameView) -> (MachineView, Ask) {
    match m.acc {
        Node::Number(n) => (m.push(then), Ask::ToInt(n)),
        _ => go(m.counted(0).push(then)),
    }
}

/// The step for an incrementing loop: both bounds are evaluated once, in
/// the current environment, and truncated, a bound that is not a number
/// being zero; the loop takes a copy of the current environment and binds
/// the counter to the lower bound in it; for each integer from the lower
/// bound up to, not including, the upper one it binds the counter in the
/// copy to the integer and runs the body there. The copy is dropped when the
/// loop is over, and the loop is nothing.
pub open spec fn for_step(m: MachineView, f: FrameView) -> (MachineView, Ask) {
    match f.node {
        Node::IncrementingLoop(name, lower, upper, body) => match f.phase {
            Phase::Start => go(m.push(FrameView { phase: Phase::Lower, ..f }).eval(*lower)),
            Phase::Lower => bound_step(
                m,
                FrameView { phase: Phase::LowerInt, saved: Node::Number(number_of(m.acc)), ..f },
            ),
            Phase::LowerInt => go(
                m.push(FrameView { phase: Phase::Upper, low: m.count, ..f }).eval(*upper),
            ),
            Phase::Upper => bound_step(m, FrameView { phase: Phase::UpperInt, ..f }),
            Phase::UpperInt => go(
                m.enter(m.env().bind(name, f.saved)).push(
                    FrameView { phase: Phase::Next, high: m.count, ..f },
                ),
            ),
            Phase::Next => {
                if f.low < f.high {
                    (
                        m.push(FrameView { phase: Phase::Iteration, low: f.low + 1, ..f }),
                        Ask::FromInt(f.low),
                    )
                } else {
                    go(m.result(Node::Nothing))
                }
            },
            Phase::Iteration => go(
                m.with_env(m.env().bind(name, m.acc)).push(
                    FrameView { phase: Phase::Steps, index: 0, ..f },
                ),
            ),
            Phase::Steps => round_step(m, f, body, Phase::Next),
            _ => go(m.result(Node::Nothing)),
        },
        _ => go(m.result(Node::Nothing)),
    }
}

/// The step for the frame `f`, taken off the stack of `m`.
pub open spec fn advance(m: MachineView, f: FrameView) -> (MachineView, Ask) {
    if f.phase == Phase::Leave {
        if m.envs.len() > 1 {
            go(MachineView { envs: m.envs.drop_last(), ..m })
        } else {
            go(m)
        }
    } else {
        match f.node {
            Node::Binary(_, _, _) => binary_step(m, f),
            Node::Assign(_, _, _) => assign_step(m, f),
            Node::FunctionCall(_, _) => call_step(m, f),
            Node::IfStatement(_, _, _, _) => if_step(m, f),
            Node::ConditionalLoop(_, _) => while_step(m, f),
            Node::IncrementingLoop(_, _, _, _) => for_step(m, f),
            _ => leaf_step(m, f),
        }
    }
}

/// One step of the machine: the answer is taken in; if no frame is left the
/// machine is done and says the value computed last; else the innermost
/// frame is taken off and advanced.
pub open spec fn step_spec(m: MachineView, answer: Answer) -> (MachineView, Ask) {
    let taken = absorb(m, answer);
    if taken.stack.len() == 0 {
        (taken, Ask::Done(taken.acc))
    } else {
        advance(MachineView { stack: taken.stack.drop_last(), ..taken }, taken.stack.last())
    }
}

/// Steps until one asks for something: the first step takes the answer in,
/// and while a step asks for nothing the next one follows, at most `budget`
/// times.
pub open spec fn steps_spec(m: MachineView, answer: Answer, budget: nat) -> (MachineView, Ask)
    decreases budget,
{
    let (after, ask) = step_spec(m, answer);
    if ask is Continue && budget > 0 {
        steps_spec(after, Answer::Nothing, (budget - 1) as nat)
    } else {
        (after, ask)
    }
}

} // verus!
