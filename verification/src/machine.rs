//! The evaluator: a machine that walks the syntax tree one step at a time.
//!
//! The caller loads a statement and takes steps until the machine is done.
//! A step may ask the caller for arithmetic on numbers, for the rendering of
//! a number, or to print a line; the caller does so and hands the answer to
//! the next step.

use vstd::prelude::*;
use crate::ast::{nodes_of, ASTNode, AssignOp, BinaryOp, Node};
use crate::env::{Environment, ExecutionContext};
use crate::semantics::{
    advance, assign_step, binary_step, boolean_text, bound_step, call_start, call_step, combine,
    for_step, if_step, leaf_step, leave_frame, number_of, print_value, start_frame, step_spec,
    steps_spec, store, take_branch, text_of, while_step, Answer, Ask, Fault, FrameView, MachineView,
    Phase,
};

verus! {

/// Why evaluation was abandoned.
#[derive(Debug, PartialEq)]
pub enum ExecError {
    /// A call of a function that was not declared.
    UndefinedFunction(String),
    /// A call with fewer arguments than the function takes.
    MissingArgument(String),
}

impl View for ExecError {
    type V = Fault;

    open spec fn view(&self) -> Fault {
        match self {
            ExecError::UndefinedFunction(name) => Fault::UndefinedFunction(name@),
            ExecError::MissingArgument(name) => Fault::MissingArgument(name@),
        }
    }
}

/// What a step asks of the caller. Numbers are given as numerals, and a
/// number in an answer is a numeral too.
#[derive(Debug, PartialEq)]
pub enum Request {
    /// Nothing: take the next step.
    Continue,
    /// Apply the operation to the two numbers and answer with the value: a
    /// number for a sum, a difference, a product, a quotient or a remainder,
    /// a boolean for a comparison.
    Arith(BinaryOp, String, String),
    /// Render the number in decimal and answer with the text.
    Show(String),
    /// Truncate the number towards zero to an integer and answer with it.
    ToInt(String),
    /// Answer with the number that the integer is.
    FromInt(i32),
    /// Print the text as a line.
    Print(String),
    /// Nothing is left to do; this is the value of what was loaded.
    Done(ASTNode),
    /// Evaluation was abandoned.
    Fault(ExecError),
}

impl View for Request {
    type V = Ask;

    open spec fn view(&self) -> Ask {
        match self {
            Request::Continue => Ask::Continue,
            Request::Arith(op, a, b) => Ask::Arith(*op, a@, b@),
            Request::Show(n) => Ask::Show(n@),
            Request::ToInt(n) => Ask::ToInt(n@),
            Request::FromInt(i) => Ask::FromInt(*i as int),
            Request::Print(t) => Ask::Print(t@),
            Request::Done(v) => Ask::Done(v@),
            Request::Fault(e) => Ask::Fault(e@),
        }
    }
}

/// What the caller answers.
#[derive(Debug, PartialEq)]
pub enum Reply {
    Nothing,
    Value(ASTNode),
    Integer(i32),
}

impl View for Reply {
    type V = Answer;

    open spec fn view(&self) -> Answer {
        match self {
            Reply::Nothing => Answer::Nothing,
            Reply::Value(v) => Answer::Value(v@),
            Reply::Integer(i) => Answer::Integer(*i as int),
        }
    }
}

/// A frame of the machine.
#[derive(Debug)]
pub struct Frame {
    pub node: ASTNode,
    pub saved: ASTNode,
    pub phase: Phase,
    pub index: usize,
    pub low: i32,
    pub high: i32,
}

impl View for Frame {
    type V = FrameView;

    open spec fn view(&self) -> FrameView {
        FrameView {
            node: self.node@,
            saved: self.saved@,
            phase: self.phase,
            index: self.index as int,
            low: self.low as int,
            high: self.high as int,
        }
    }
}

impl Frame {
    /// The frame that starts the evaluation of `node`.
    pub fn start(node: ASTNode) -> (r: Frame)
        ensures
            r@ == start_frame(node@),
    {
        Frame { node, saved: ASTNode::Nothing, phase: Phase::Start, index: 0, low: 0, high: 0 }
    }

    /// The frame that drops the environment on top.
    pub fn leave() -> (r: Frame)
        ensures
            r@ == leave_frame(),
    {
        Frame {
            node: ASTNode::Nothing,
            saved: ASTNode::Nothing,
            phase: Phase::Leave,
            index: 0,
            low: 0,
            high: 0,
        }
    }
}

/// The values of a list of frames.
pub open spec fn frames_of(v: Seq<Frame>) -> Seq<FrameView> {
    v.map_values(|f: Frame| f@)
}

/// The values of a list of environments.
pub open spec fn envs_of(v: Seq<ExecutionContext>) -> Seq<Environment> {
    v.map_values(|e: ExecutionContext| e@)
}

/// The text of a value.
fn text_in(value: &ASTNode) -> (r: String)
    ensures
        r@ == text_of(value@),
{
    match value {
        ASTNode::Text(t) => t.clone(),
        _ => String::new(),
    }
}

/// The number of a value, as a numeral.
fn number_in(value: &ASTNode) -> (r: String)
    ensures
        r@ == number_of(value@),
{
    match value {
        ASTNode::Number(n) => n.clone(),
        _ => String::from_str("0"),
    }
}

/// Whether a value is a number.
fn is_number(value: &ASTNode) -> (r: bool)
    ensures
        r == (value@ is Number),
{
    match value {
        ASTNode::Number(_) => true,
        _ => false,
    }
}

/// Whether a value is the loop-break mark.
fn is_loop_break(value: &ASTNode) -> (r: bool)
    ensures
        r == (value@ is LoopBreak),
{
    match value {
        ASTNode::LoopBreak => true,
        _ => false,
    }
}

/// The text that is printed for a boolean.
fn text_for(b: bool) -> (r: String)
    ensures
        r@ == boolean_text(b),
{
    if b {
        String::from_str("true")
    } else {
        String::from_str("false")
    }
}

/// Whether a name is the word.
fn is_name(name: &String, word: &str) -> (r: bool)
    ensures
        r == (name@ == word@),
{
    let other = String::from_str(word);
    *name == other
}

/// The evaluator's machine.
#[derive(Debug)]
pub struct Machine {
    pub stack: Vec<Frame>,
    pub envs: Vec<ExecutionContext>,
    pub acc: ASTNode,
    pub count: i32,
}

impl View for Machine {
    type V = MachineView;

    open spec fn view(&self) -> MachineView {
        MachineView {
            stack: frames_of(self.stack@),
            envs: envs_of(self.envs@),
            acc: self.acc@,
            count: self.count as int,
        }
    }
}

impl Machine {
    /// A machine with nothing to do, and one environment without variables
    /// and functions.
    pub fn new() -> (r: Machine)
        ensures
            r@ == (MachineView {
                stack: Seq::empty(),
                envs: seq![Environment::empty()],
                acc: Node::Nothing,
                count: 0,
            }),
            r@.wf(),
    {
        let mut envs: Vec<ExecutionContext> = Vec::new();
        envs.push(ExecutionContext::new());
        let r = Machine { stack: Vec::new(), envs, acc: ASTNode::Nothing, count: 0 };
        assert(frames_of(r.stack@) =~= Seq::<FrameView>::empty());
        assert(envs_of(r.envs@) =~= seq![Environment::empty()]);
        r
    }

    /// Loads `node`: the coming steps evaluate it in the current
    /// environment.
    pub fn load(&mut self, node: ASTNode)
        ensures
            final(self)@ == old(self)@.eval(node@),
    {
        self.push_frame(Frame::start(node));
    }

    /// Whether nothing is left to do.
    pub fn is_idle(&self) -> (r: bool)
        ensures
            r == (self@.stack.len() == 0),
    {
        self.stack.len() == 0
    }

    /// The current environment.
    pub fn environment(&self) -> (r: &ExecutionContext)
        requires
            self@.wf(),
        ensures
            r@ == self@.env(),
    {
        &self.envs[self.envs.len() - 1]
    }

    /// Pushes a frame.
    fn push_frame(&mut self, f: Frame)
        ensures
            final(self)@ == old(self)@.push(f@),
    {
        self.stack.push(f);
        assert(frames_of(self.stack@) =~= frames_of(old(self).stack@).push(f@));
    }

    /// Pushes the evaluation of `node`.
    fn eval(&mut self, node: ASTNode)
        ensures
            final(self)@ == old(self)@.eval(node@),
    {
        self.push_frame(Frame::start(node));
    }

    /// Sets the value computed last.
    fn set_result(&mut self, value: ASTNode)
        ensures
            final(self)@ == old(self)@.result(value@),
    {
        self.acc = value;
    }

    /// Sets the integer received last.
    fn set_count(&mut self, count: i32)
        ensures
            final(self)@ == old(self)@.counted(count as int),
    {
        self.count = count;
    }

    /// Takes the current environment off.
    fn take_env(&mut self) -> (r: ExecutionContext)
        requires
            old(self)@.wf(),
        ensures
            r@ == old(self)@.env(),
            final(self)@ == (MachineView { envs: old(self)@.envs.drop_last(), ..old(self)@ }),
    {
        let r = self.envs.pop().unwrap();
        assert(envs_of(self.envs@) =~= envs_of(old(self).envs@).drop_last());
        r
    }

    /// Puts an environment on top.
    fn put_env(&mut self, env: ExecutionContext)
        ensures
            final(self)@ == (MachineView { envs: old(self)@.envs.push(env@), ..old(self)@ }),
    {
        self.envs.push(env);
        assert(envs_of(self.envs@) =~= envs_of(old(self).envs@).push(env@));
    }

    /// Enters an environment that the frames pushed next run in.
    fn enter(&mut self, env: ExecutionContext)
        ensures
            final(self)@ == old(self)@.enter(env@),
    {
        self.put_env(env);
        self.push_frame(Frame::leave());
    }

    /// Drops every frame and every environment but the first.
    fn halt(&mut self)
        requires
            old(self)@.wf(),
        ensures
            final(self)@ == old(self)@.halted(),
    {
        self.stack.clear();
        self.envs.truncate(1);
        self.acc = ASTNode::Nothing;
        assert(frames_of(self.stack@) =~= Seq::<FrameView>::empty());
        assert(envs_of(self.envs@) =~= envs_of(old(self).envs@).take(1));
    }

    /// Abandons evaluation.
    fn fail(&mut self, error: ExecError) -> (r: Request)
        requires
            old(self)@.wf(),
        ensures
            (final(self)@, r@) == crate::semantics::fail(old(self)@, error@),
    {
        self.halt();
        Request::Fault(error)
    }
}


/// Whether a value is a text.
fn is_text(value: &ASTNode) -> (r: bool)
    ensures
        r == (value@ is Text),
{
    match value {
        ASTNode::Text(_) => true,
        _ => false,
    }
}

/// A copy of the statement at `index` of `body`, if there is one.
fn statement_at(body: &Vec<ASTNode>, index: usize) -> (r: Option<ASTNode>)
    ensures
        match r {
            Some(statement) => index < body.len() && statement@ == nodes_of(body@)[index as int],
            None => index >= body.len(),
        },
        nodes_of(body@).len() == body.len(),
{
    if index < body.len() {
        Some(body[index].copy())
    } else {
        None
    }
}

impl Machine {
    /// Advances a frame whose node has no parts.
    fn step_leaf(&mut self, f: Frame) -> (r: Request)
        requires
            old(self)@.wf(),
        ensures
            (final(self)@, r@) == leaf_step(old(self)@, f@),
    {
        match f.node {
            ASTNode::Number(n) => {
                self.set_result(ASTNode::Number(n));
            },
            ASTNode::Text(t) => {
                self.set_result(ASTNode::Text(t));
            },
            ASTNode::Boolean(b) => {
                self.set_result(ASTNode::Boolean(b));
            },
            ASTNode::LoopBreak => {
                self.set_result(ASTNode::LoopBreak);
            },
            ASTNode::Variable(name) => {
                let value = self.environment().read(&name);
                self.set_result(value);
            },
            ASTNode::FunctionDecl(name, params, body) => {
                let mut env = self.take_env();
                env.declare(name, params, body);
                self.put_env(env);
                self.set_result(ASTNode::Nothing);
            },
            _ => {
                self.set_result(ASTNode::Nothing);
            },
        }
        Request::Continue
    }

    /// Applies an operation to the values of both operands.
    fn combine(&mut self, f: Frame, op: BinaryOp) -> (r: Request)
        requires
            old(self)@.wf(),
        ensures
            (final(self)@, r@) == combine(old(self)@, f@, op, f@.saved, old(self)@.acc),
    {
        let mut f = f;
        let left = is_number(&f.saved);
        let right = is_number(&self.acc);
        match op {
            BinaryOp::Add => {
                if left && right {
                    Request::Arith(op, number_in(&f.saved), number_in(&self.acc))
                } else if left {
                    let n = number_in(&f.saved);
                    f.saved = ASTNode::Text(text_in(&self.acc));
                    f.phase = Phase::Joined;
                    f.index = 0;
                    self.push_frame(f);
                    Request::Show(n)
                } else if right {
                    let n = number_in(&self.acc);
                    f.saved = ASTNode::Text(text_in(&f.saved));
                    f.phase = Phase::Joined;
                    f.index = 1;
                    self.push_frame(f);
                    Request::Show(n)
                } else {
                    let joined = text_in(&f.saved).concat(text_in(&self.acc).as_str());
                    self.set_result(ASTNode::Text(joined));
                    Request::Continue
                }
            },
            BinaryOp::EqCheck => {
                if left && right {
                    Request::Arith(op, number_in(&f.saved), number_in(&self.acc))
                } else if left || right {
                    self.set_result(ASTNode::Boolean(false));
                    Request::Continue
                } else {
                    let same = text_in(&f.saved) == text_in(&self.acc);
                    self.set_result(ASTNode::Boolean(same));
                    Request::Continue
                }
            },
            BinaryOp::NeqCheck => {
                if left && right {
                    Request::Arith(op, number_in(&f.saved), number_in(&self.acc))
                } else if left || right {
                    self.set_result(ASTNode::Boolean(true));
                    Request::Continue
                } else {
                    let same = text_in(&f.saved) == text_in(&self.acc);
                    self.set_result(ASTNode::Boolean(!same));
                    Request::Continue
                }
            },
            _ => Request::Arith(op, number_in(&f.saved), number_in(&self.acc)),
        }
    }

    /// Advances the frame of an operation.
    fn step_binary(&mut self, f: Frame) -> (r: Request)
        requires
            old(self)@.wf(),
            f@.node is Binary,
        ensures
            (final(self)@, r@) == binary_step(old(self)@, f@),
    {
        let mut f = f;
        match f.phase {
            Phase::Start => {
                let child = match &f.node {
                    ASTNode::Binary(_, lhs, _) => lhs.copy(),
                    _ => ASTNode::Nothing,
                };
                f.phase = Phase::Lhs;
                self.push_frame(f);
                self.eval(child);
                Request::Continue
            },
            Phase::Lhs => {
                let child = match &f.node {
                    ASTNode::Binary(_, _, rhs) => rhs.copy(),
                    _ => ASTNode::Nothing,
                };
                f.saved = self.acc.copy();
                f.phase = Phase::Rhs;
                self.push_frame(f);
                self.eval(child);
                Request::Continue
            },
            Phase::Rhs => {
                let op = match &f.node {
                    ASTNode::Binary(op, _, _) => *op,
                    _ => BinaryOp::Add,
                };
                self.combine(f, op)
            },
            Phase::Joined => {
                let joined = if f.index == 0 {
                    text_in(&self.acc).concat(text_in(&f.saved).as_str())
                } else {
                    text_in(&f.saved).concat(text_in(&self.acc).as_str())
                };
                self.set_result(ASTNode::Text(joined));
                Request::Continue
            },
            _ => {
                self.set_result(ASTNode::Nothing);
                Request::Continue
            },
        }
    }

    /// Writes the value computed last to a variable.
    fn store(&mut self, f: Frame, op: AssignOp, name: String) -> (r: Request)
        requires
            old(self)@.wf(),
        ensures
            (final(self)@, r@) == store(old(self)@, f@, op, name@, old(self)@.acc),
    {
        let mut f = f;
        let value = self.acc.copy();
        match op {
            AssignOp::Let => {
                let mut env = self.take_env();
                env.bind(name, value);
                self.put_env(env);
                self.set_result(ASTNode::Nothing);
                Request::Continue
            },
            AssignOp::Change => {
                let mut env = self.take_env();
                env.change(name, value);
                self.put_env(env);
                self.set_result(ASTNode::Nothing);
                Request::Continue
            },
            AssignOp::AddEq => {
                if is_text(&value) && self.environment().s_vars.contains(&name) {
                    let mut env = self.take_env();
                    let joined = text_in(env.s_vars.get(&name).unwrap()).concat(
                        text_in(&value).as_str(),
                    );
                    env.s_vars.put(name, ASTNode::Text(joined));
                    self.put_env(env);
                    self.set_result(ASTNode::Nothing);
                    Request::Continue
                } else if is_number(&value) && self.environment().n_vars.contains(&name) {
                    let held = number_in(self.environment().n_vars.get(&name).unwrap());
                    f.phase = Phase::Stored;
                    self.push_frame(f);
                    Request::Arith(BinaryOp::Add, held, number_in(&value))
                } else {
                    self.set_result(ASTNode::Nothing);
                    Request::Continue
                }
            },
            AssignOp::SubEq => {
                if is_number(&value) && self.environment().n_vars.contains(&name) {
                    let held = number_in(self.environment().n_vars.get(&name).unwrap());
                    f.phase = Phase::Stored;
                    self.push_frame(f);
                    Request::Arith(BinaryOp::Sub, held, number_in(&value))
                } else {
                    self.set_result(ASTNode::Nothing);
                    Request::Continue
                }
            },
        }
    }

    /// Advances the frame of a write.
    fn step_assign(&mut self, f: Frame) -> (r: Request)
        requires
            old(self)@.wf(),
            f@.node is Assign,
        ensures
            (final(self)@, r@) == assign_step(old(self)@, f@),
    {
        let mut f = f;
        match f.phase {
            Phase::Start => {
                let child = match &f.node {
                    ASTNode::Assign(_, _, value) => value.copy(),
                    _ => ASTNode::Nothing,
                };
                f.phase = Phase::Value;
                self.push_frame(f);
                self.eval(child);
                Request::Continue
            },
            Phase::Value => {
                let (op, name) = match &f.node {
                    ASTNode::Assign(op, name, _) => (*op, name.clone()),
                    _ => (AssignOp::Let, String::new()),
                };
                self.store(f, op, name)
            },
            Phase::Stored => {
                if is_number(&self.acc) {
                    let name = match &f.node {
                        ASTNode::Assign(_, name, _) => name.clone(),
                        _ => String::new(),
                    };
                    let value = self.acc.copy();
                    let mut env = self.take_env();
                    env.bind(name, value);
                    self.put_env(env);
                }
                self.set_result(ASTNode::Nothing);
                Request::Continue
            },
            _ => {
                self.set_result(ASTNode::Nothing);
                Request::Continue
            },
        }
    }

    /// Prints the value computed last.
    fn print_value(&mut self, f: Frame) -> (r: Request)
        requires
            old(self)@.wf(),
        ensures
            (final(self)@, r@) == print_value(old(self)@, f@, old(self)@.acc),
    {
        let mut f = f;
        let value = self.acc.copy();
        match value {
            ASTNode::Number(n) => {
                f.phase = Phase::Shown;
                self.push_frame(f);
                Request::Show(n)
            },
            ASTNode::Text(t) => {
                self.set_result(ASTNode::Nothing);
                Request::Print(t)
            },
            ASTNode::Boolean(b) => {
                self.set_result(ASTNode::Nothing);
                Request::Print(text_for(b))
            },
            _ => {
                self.set_result(ASTNode::Nothing);
                Request::Continue
            },
        }
    }

    /// Starts a call.
    fn call_start(&mut self, f: Frame) -> (r: Request)
        requires
            old(self)@.wf(),
            f@.node is FunctionCall,
        ensures
            match f@.node {
                Node::FunctionCall(name, args) => (final(self)@, r@) == call_start(
                    old(self)@,
                    f@,
                    name,
                    args,
                ),
                _ => true,
            },
    {
        let mut f = f;
        let (name, count, first) = match &f.node {
            ASTNode::FunctionCall(name, args) => (
                name.clone(),
                args.len(),
                statement_at(args, 0),
            ),
            _ => (String::new(), 0, None),
        };
        if is_name(&name, "print") {
            return match first {
                None => self.fail(ExecError::MissingArgument(name)),
                Some(argument) => {
                    f.phase = Phase::Argument;
                    self.push_frame(f);
                    self.eval(argument);
                    Request::Continue
                },
            };
        }
        if is_name(&name, "return") {
            return match first {
                None => self.fail(ExecError::MissingArgument(name)),
                Some(argument) => {
                    self.eval(argument);
                    Request::Continue
                },
            };
        }
        let found = match self.environment().functions.get(&name) {
            Some(declaration) => Some(declaration.copy()),
            None => None,
        };
        match found {
            None => self.fail(ExecError::UndefinedFunction(name)),
            Some(declaration) => {
                let callee = match &declaration {
                    ASTNode::FunctionDecl(_, params, _) => {
                        if count < params.len() {
                            return self.fail(ExecError::MissingArgument(name));
                        }
                        let mut callee = self.environment().child();
                        match &f.node {
                            ASTNode::FunctionCall(_, args) => {
                                callee.bind_arguments(params, args, self.environment());
                            },
                            _ => {},
                        }
                        Some(callee)
                    },
                    _ => None,
                };
                match callee {
                    Some(callee) => {
                        self.enter(callee);
                        f.phase = Phase::Body;
                        f.saved = declaration;
                        f.index = 0;
                        self.push_frame(f);
                        self.set_result(ASTNode::Nothing);
                        Request::Continue
                    },
                    None => {
                        self.set_result(ASTNode::Nothing);
                        Request::Continue
                    },
                }
            },
        }
    }

    /// Advances the frame of a call.
    fn step_call(&mut self, f: Frame) -> (r: Request)
        requires
            old(self)@.wf(),
            f@.node is FunctionCall,
        ensures
            (final(self)@, r@) == call_step(old(self)@, f@),
    {
        let mut f = f;
        match f.phase {
            Phase::Start => self.call_start(f),
            Phase::Argument => self.print_value(f),
            Phase::Shown => {
                let value = self.acc.copy();
                self.set_result(ASTNode::Nothing);
                match value {
                    ASTNode::Text(t) => Request::Print(t),
                    _ => Request::Continue,
                }
            },
            Phase::Body => {
                let next = match &f.saved {
                    ASTNode::FunctionDecl(_, _, body) => statement_at(body, f.index),
                    _ => None,
                };
                match next {
                    Some(statement) => {
                        f.index = f.index + 1;
                        self.push_frame(f);
                        self.eval(statement);
                    },
                    None => {},
                }
                Request::Continue
            },
            _ => {
                self.set_result(ASTNode::Nothing);
                Request::Continue
            },
        }
    }

    /// Takes the branch of a conditional for a condition that is `truth`.
    fn take_branch(&mut self, f: Frame, truth: bool, has_else: bool) -> (r: Request)
        requires
            old(self)@.wf(),
        ensures
            (final(self)@, r@) == take_branch(old(self)@, f@, truth, has_else),
    {
        let mut f = f;
        if truth {
            f.phase = Phase::Then;
            f.index = 0;
            self.push_frame(f);
        } else if has_else {
            f.phase = Phase::Else;
            f.index = 0;
            self.push_frame(f);
        } else {
            self.set_result(ASTNode::Nothing);
        }
        Request::Continue
    }

    /// Advances the frame of a conditional.
    fn step_if(&mut self, f: Frame) -> (r: Request)
        requires
            old(self)@.wf(),
            f@.node is IfStatement,
        ensures
            (final(self)@, r@) == if_step(old(self)@, f@),
    {
        let mut f = f;
        let has_else = match &f.node {
            ASTNode::IfStatement(_, _, has_else, _) => *has_else,
            _ => false,
        };
        match f.phase {
            Phase::Start => {
                let child = match &f.node {
                    ASTNode::IfStatement(cond, _, _, _) => cond.copy(),
                    _ => ASTNode::Nothing,
                };
                f.phase = Phase::Condition;
                self.push_frame(f);
                self.eval(child);
                Request::Continue
            },
            Phase::Condition => {
                let value = self.acc.copy();
                match value {
                    ASTNode::Number(n) => {
                        f.phase = Phase::Truth;
                        self.push_frame(f);
                        Request::Arith(BinaryOp::NeqCheck, n, String::from_str("0"))
                    },
                    ASTNode::Boolean(b) => self.take_branch(f, b, has_else),
                    _ => self.take_branch(f, false, has_else),
                }
            },
            Phase::Truth => {
                let truth = match &self.acc {
                    ASTNode::Boolean(b) => *b,
                    _ => false,
                };
                self.take_branch(f, truth, has_else)
            },
            Phase::Then => {
                let next = match &f.node {
                    ASTNode::IfStatement(_, body, _, _) => statement_at(body, f.index),
                    _ => None,
                };
                match next {
                    Some(statement) => {
                        f.index = f.index + 1;
                        self.push_frame(f);
                        self.eval(statement);
                    },
                    None => {
                        self.set_result(ASTNode::Nothing);
                    },
                }
                Request::Continue
            },
            Phase::Else => {
                let next = match &f.node {
                    ASTNode::IfStatement(_, _, _, else_body) => statement_at(else_body, f.index),
                    _ => None,
                };
                match next {
                    Some(statement) => {
                        f.index = f.index + 1;
                        self.push_frame(f);
                        self.eval(statement);
                    },
                    None => {
                        self.set_result(ASTNode::Nothing);
                    },
                }
                Request::Continue
            },
            _ => {
                self.set_result(ASTNode::Nothing);
                Request::Continue
            },
        }
    }

    /// Runs the next statement of a round of a loop, if there is one and
    /// the round is not over.
    fn round(&mut self, f: Frame, next: Option<ASTNode>, after: Phase)
        requires
            old(self)@.wf(),
            next is Some ==> f.index < usize::MAX,
        ensures
            final(self)@ == (if (f@.index > 0 && old(self)@.acc is LoopBreak) || next is None {
                old(self)@.push(FrameView { phase: after, index: 0, ..f@ })
            } else {
                old(self)@.push(FrameView { index: f@.index + 1, ..f@ }).eval(next->0@)
            }),
    {
        let mut f = f;
        let broken = f.index > 0 && is_loop_break(&self.acc);
        match next {
            Some(statement) => {
                if broken {
                    f.phase = after;
                    f.index = 0;
                    self.push_frame(f);
                } else {
                    f.index = f.index + 1;
                    self.push_frame(f);
                    self.eval(statement);
                }
            },
            None => {
                f.phase = after;
                f.index = 0;
                self.push_frame(f);
            },
        }
    }

    /// Advances the frame of a conditional loop.
    fn step_while(&mut self, f: Frame) -> (r: Request)
        requires
            old(self)@.wf(),
            f@.node is ConditionalLoop,
        ensures
            (final(self)@, r@) == while_step(old(self)@, f@),
    {
        let mut f = f;
        match f.phase {
            Phase::Start => {
                let child = match &f.node {
                    ASTNode::ConditionalLoop(cond, _) => cond.copy(),
                    _ => ASTNode::Nothing,
                };
                f.phase = Phase::Condition;
                self.push_frame(f);
                self.eval(child);
            },
            Phase::Condition => {
                let truth = match &self.acc {
                    ASTNode::Boolean(b) => *b,
                    _ => false,
                };
                if truth {
                    f.phase = Phase::Loop;
                    f.index = 0;
                    self.push_frame(f);
                } else {
                    self.set_result(ASTNode::Nothing);
                }
            },
            Phase::Loop => {
                let next = match &f.node {
                    ASTNode::ConditionalLoop(_, body) => statement_at(body, f.index),
                    _ => None,
                };
                self.round(f, next, Phase::Start);
            },
            _ => {
                self.set_result(ASTNode::Nothing);
            },
        }
        Request::Continue
    }

    /// Asks for the integer of a bound of an incrementing loop.
    fn bound(&mut self, f: Frame) -> (r: Request)
        requires
            old(self)@.wf(),
        ensures
            (final(self)@, r@) == bound_step(old(self)@, f@),
    {
        let value = self.acc.copy();
        match value {
            ASTNode::Number(n) => {
                self.push_frame(f);
                Request::ToInt(n)
            },
            _ => {
                self.set_count(0);
                self.push_frame(f);
                Request::Continue
            },
        }
    }

    /// Advances the frame of an incrementing loop.
    fn step_for(&mut self, f: Frame) -> (r: Request)
        requires
            old(self)@.wf(),
            f@.node is IncrementingLoop,
        ensures
            (final(self)@, r@) == for_step(old(self)@, f@),
    {
        let mut f = f;
        match f.phase {
            Phase::Start => {
                let child = match &f.node {
                    ASTNode::IncrementingLoop(_, lower, _, _) => lower.copy(),
                    _ => ASTNode::Nothing,
                };
                f.phase = Phase::Lower;
                self.push_frame(f);
                self.eval(child);
                Request::Continue
            },
            Phase::Lower => {
                f.phase = Phase::LowerInt;
                f.saved = ASTNode::Number(number_in(&self.acc));
                self.bound(f)
            },
            Phase::LowerInt => {
                let child = match &f.node {
                    ASTNode::IncrementingLoop(_, _, upper, _) => upper.copy(),
                    _ => ASTNode::Nothing,
                };
                f.phase = Phase::Upper;
                f.low = self.count;
                self.push_frame(f);
                self.eval(child);
                Request::Continue
            },
            Phase::Upper => {
                f.phase = Phase::UpperInt;
                self.bound(f)
            },
            Phase::UpperInt => {
                let name = match &f.node {
                    ASTNode::IncrementingLoop(name, _, _, _) => name.clone(),
                    _ => String::new(),
                };
                let mut copy = self.environment().copy();
                copy.bind(name, f.saved.copy());
                self.enter(copy);
                f.phase = Phase::Next;
                f.high = self.count;
                self.push_frame(f);
                Request::Continue
            },
            Phase::Next => {
                if f.low < f.high {
                    let round = f.low;
                    f.phase = Phase::Iteration;
                    f.low = f.low + 1;
                    self.push_frame(f);
                    Request::FromInt(round)
                } else {
                    self.set_result(ASTNode::Nothing);
                    Request::Continue
                }
            },
            Phase::Iteration => {
                let name = match &f.node {
                    ASTNode::IncrementingLoop(name, _, _, _) => name.clone(),
                    _ => String::new(),
                };
                let value = self.acc.copy();
                let mut env = self.take_env();
                env.bind(name, value);
                self.put_env(env);
                f.phase = Phase::Steps;
                f.index = 0;
                self.push_frame(f);
                Request::Continue
            },
            Phase::Steps => {
                let next = match &f.node {
                    ASTNode::IncrementingLoop(_, _, _, body) => statement_at(body, f.index),
                    _ => None,
                };
                self.round(f, next, Phase::Next);
                Request::Continue
            },
            _ => {
                self.set_result(ASTNode::Nothing);
                Request::Continue
            },
        }
    }

    /// Advances the frame `f`, which was taken off the stack.
    fn advance(&mut self, f: Frame) -> (r: Request)
        requires
            old(self)@.wf(),
        ensures
            (final(self)@, r@) == advance(old(self)@, f@),
    {
        if f.phase == Phase::Leave {
            if self.envs.len() > 1 {
                let _ = self.take_env();
            }
            return Request::Continue;
        }
        match &f.node {
            ASTNode::Binary(..) => self.step_binary(f),
            ASTNode::Assign(..) => self.step_assign(f),
            ASTNode::FunctionCall(..) => self.step_call(f),
            ASTNode::IfStatement(..) => self.step_if(f),
            ASTNode::ConditionalLoop(..) => self.step_while(f),
            ASTNode::IncrementingLoop(..) => self.step_for(f),
            _ => self.step_leaf(f),
        }
    }

    /// Takes one step. The answer to what the step before asked for, if it
    /// asked for one, is taken in first: a value becomes the value computed
    /// last, an integer the integer received last. If nothing is left to do,
    /// the step says so and gives the value computed last, and the machine
    /// stays as it is. Else the innermost frame is advanced, and the step
    /// says what the caller is to do before the next one.
    pub fn step(&mut self, reply: Reply) -> (r: Request)
        requires
            old(self)@.wf(),
        ensures
            (final(self)@, r@) == step_spec(old(self)@, reply@),
            final(self)@.wf(),
    {
        match reply {
            Reply::Nothing => {},
            Reply::Value(value) => {
                self.set_result(value);
            },
            Reply::Integer(count) => {
                self.set_count(count);
            },
        }
        let ghost taken = self@;
        match self.stack.pop() {
            None => Request::Done(self.acc.copy()),
            Some(f) => {
                assert(frames_of(self.stack@) =~= taken.stack.drop_last());
                proof {
                    lemma_advance_keeps_environments(self@, f@);
                }
                self.advance(f)
            },
        }
    }
}

impl Machine {
    /// Takes steps until one asks for something, or `budget` steps in a
    /// row after the first have asked for nothing; says what the last step
    /// asked.
    pub fn steps(&mut self, reply: Reply, budget: usize) -> (r: Request)
        requires
            old(self)@.wf(),
        ensures
            (final(self)@, r@) == steps_spec(old(self)@, reply@, budget as nat),
            final(self)@.wf(),
    {
        let ghost start = self@;
        let ghost answer = reply@;
        let mut request = self.step(reply);
        let mut left = budget;
        while left > 0 && is_continue(&request)
            invariant
                self@.wf(),
                steps_spec(start, answer, budget as nat) == (if request@ is Continue && left > 0 {
                    steps_spec(self@, Answer::Nothing, (left - 1) as nat)
                } else {
                    (self@, request@)
                }),
            decreases left,
        {
            request = self.step(Reply::Nothing);
            left = left - 1;
        }
        request
    }
}

/// Whether a request asks for nothing.
fn is_continue(request: &Request) -> (r: bool)
    ensures
        r == (request@ is Continue),
{
    match request {
        Request::Continue => true,
        _ => false,
    }
}

/// A step leaves at least one environment where there was one.
pub proof fn lemma_advance_keeps_environments(m: MachineView, f: FrameView)
    requires
        m.wf(),
    ensures
        advance(m, f).0.wf(),
{
}

} // verus!
