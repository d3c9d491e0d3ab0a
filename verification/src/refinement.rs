//! The machine computes the meaning: whenever a node has an outcome, the
//! machine on which the node is loaded reaches, in as many steps as the
//! outcome says, the state that the outcome describes, and the caller has
//! printed the outcome's lines on the way; and whenever the evaluation of a
//! node is abandoned, so is the machine, after the lines printed before.

use vstd::prelude::*;
use crate::ast::{AssignOp, BinaryOp, Node};
use crate::env::{bind_arguments, Environment};
use crate::meaning::{
    agrees, bound_of, computes, eval, eval_call, eval_list, eval_rounds, eval_while, later,
    lines_of, outside, printed, renders, reply_to, run, settled, stopped, tick, told, truth_of,
    Halt, Mode, Numbers, Outcome, Seen, Stop,
};
use crate::semantics::{
    absorb, advance, leave_frame, number_of, start_frame, take_branch, text_of, Fault, FrameView,
    MachineView, Phase,
};

verus! {

/// Whether the machine `from` is the machine `to` after `n` steps in which
/// the lines `out` were printed and no fault was told.
pub open spec fn ran(
    o: Numbers,
    from: MachineView,
    n: nat,
    to: MachineView,
    out: Seq<Seq<char>>,
) -> bool {
    run(o, from, n) == (to, Seen::lines(out))
}

/// One step of a run is a tick.
pub proof fn lemma_one(o: Numbers, from: MachineView)
    ensures
        run(o, from, 1) == tick(o, from),
{
    let (next, first) = tick(o, from);
    assert(run(o, next, 0) == (next, Seen::nothing()));
    assert(first.out + Seq::<Seq<char>>::empty() =~= first.out);
    assert(first.faults + Seq::<Fault>::empty() =~= first.faults);
}

/// A run of `a + b` steps is a run of `a` steps and then one of `b` steps.
pub proof fn lemma_then(
    o: Numbers,
    from: MachineView,
    a: nat,
    mid: MachineView,
    first: Seen,
    b: nat,
    to: MachineView,
    second: Seen,
)
    requires
        run(o, from, a) == (mid, first),
        run(o, mid, b) == (to, second),
    ensures
        run(o, from, a + b) == (to, first.and(second)),
    decreases a,
{
    if a == 0 {
        assert(Seq::<Seq<char>>::empty() + second.out =~= second.out);
        assert(Seq::<Fault>::empty() + second.faults =~= second.faults);
    } else {
        let (next, head) = tick(o, from);
        let (last, rest) = run(o, next, (a - 1) as nat);
        lemma_then(o, next, (a - 1) as nat, mid, rest, b, to, second);
        assert(head.out + (rest.out + second.out) =~= (head.out + rest.out) + second.out);
        assert(head.faults + (rest.faults + second.faults) =~= (head.faults + rest.faults)
            + second.faults);
    }
}

/// Two runs without faults, one after the other, are one run without
/// faults, in which the lines of both were printed.
pub proof fn lemma_on(
    o: Numbers,
    from: MachineView,
    a: nat,
    mid: MachineView,
    first: Seq<Seq<char>>,
    b: nat,
    to: MachineView,
    second: Seq<Seq<char>>,
    out: Seq<Seq<char>>,
)
    requires
        ran(o, from, a, mid, first),
        ran(o, mid, b, to, second),
        out =~= first + second,
    ensures
        ran(o, from, a + b, to, out),
{
    lemma_then(o, from, a, mid, Seen::lines(first), b, to, Seen::lines(second));
    assert(Seq::<Fault>::empty() + Seq::<Fault>::empty() =~= Seq::<Fault>::empty());
}

/// A run without faults and then an evaluation that is abandoned are an
/// evaluation that is abandoned later.
pub proof fn lemma_halts(
    o: Numbers,
    from: MachineView,
    k: nat,
    pre: Seq<Seq<char>>,
    start: MachineView,
    inner: MachineView,
    m: MachineView,
    h: Halt,
)
    requires
        ran(o, from, k, start, pre),
        agrees(o, start, inner, Err(Stop::Fault(h))),
        inner.envs.drop_last() =~= m.envs.drop_last(),
    ensures
        agrees(o, from, m, Err(later(Stop::Fault(h), pre, k))),
{
    lemma_then(
        o,
        from,
        k,
        start,
        Seen::lines(pre),
        h.steps,
        stopped(inner, h),
        Seen { out: h.out, faults: seq![h.fault] },
    );
    assert(Seq::<Fault>::empty() + seq![h.fault] =~= seq![h.fault]);
}

/// As `lemma_halts`, for an evaluation in an environment of its own, on top
/// of `env`.
pub proof fn lemma_halts_inside(
    o: Numbers,
    from: MachineView,
    k: nat,
    pre: Seq<Seq<char>>,
    start: MachineView,
    inner: MachineView,
    m: MachineView,
    env: Environment,
    h: Halt,
)
    requires
        ran(o, from, k, start, pre),
        agrees(o, start, inner, Err(Stop::Fault(h))),
        inner.envs.len() > 0,
        inner.envs.drop_last() =~= m.envs.drop_last().push(env),
    ensures
        agrees(o, from, m, Err(outside(later(Stop::Fault(h), pre, k), env))),
{
    lemma_then(
        o,
        from,
        k,
        start,
        Seen::lines(pre),
        h.steps,
        stopped(inner, h),
        Seen { out: h.out, faults: seq![h.fault] },
    );
    assert(Seq::<Fault>::empty() + seq![h.fault] =~= seq![h.fault]);
    assert(inner.envs.drop_last().push(h.env).take(1) =~= m.envs.drop_last().push(env).take(1));
}

/// The step of a machine whose innermost frame is `f` advances `f`.
pub proof fn lemma_top(o: Numbers, m: MachineView, f: FrameView)
    ensures
        tick(o, m.push(f)) == ({
            let (after, ask) = advance(m, f);
            (absorb(after, reply_to(o, ask)), Seen { out: printed(ask), faults: told(ask) })
        }),
        run(o, m.push(f), 1) == tick(o, m.push(f)),
{
    assert(m.push(f).stack.drop_last() =~= m.stack);
    lemma_one(o, m.push(f));
}

/// The machine `m` with `env` as its current environment, `value` as the
/// value computed last and `count` as the integer received last.
pub open spec fn with(m: MachineView, env: Environment, value: Node, count: int) -> MachineView {
    MachineView { stack: m.stack, envs: m.envs.drop_last().push(env), acc: value, count }
}

/// The machine agrees with the meaning of a node without parts.
proof fn lemma_leaf(o: Numbers, node: Node, fuel: nat, m: MachineView)
    requires
        m.wf(),
        node is Nothing || node is Number || node is Text || node is Boolean || node is LoopBreak
            || node is Variable || node is FunctionDecl,
    ensures
        agrees(o, m.eval(node), m, eval(o, node, m.env(), m.count, fuel)),
{
    lemma_top(o, m, start_frame(node));
    assert(m.envs.drop_last().push(m.env()) =~= m.envs);
}

/// The machine agrees with the meaning of an operation.
proof fn lemma_binary(
    o: Numbers,
    op: BinaryOp,
    lhs: Node,
    rhs: Node,
    fuel: nat,
    m: MachineView,
)
    requires
        m.wf(),
    ensures
        agrees(
            o,
            m.eval(Node::Binary(op, Box::new(lhs), Box::new(rhs))),
            m,
            eval(o, Node::Binary(op, Box::new(lhs), Box::new(rhs)), m.env(), m.count, fuel),
        ),
    decreases fuel, 1nat,
{
    let node = Node::Binary(op, Box::new(lhs), Box::new(rhs));
    let none = Seq::<Seq<char>>::empty();
    if fuel > 0 {
        let less = (fuel - 1) as nat;
        let f0 = start_frame(node);
        let f1 = FrameView { phase: Phase::Lhs, ..f0 };
        // The first step starts the left operand.
        let s0 = m.eval(node);
        let m1 = m.push(f1);
        lemma_top(o, m, f0);
        assert(ran(o, s0, 1, m1.eval(lhs), none));
        lemma_eval(o, lhs, less, m1);
        match eval(o, lhs, m.env(), m.count, less) {
            Err(Stop::OutOfFuel) => {},
            Err(Stop::Fault(h)) => {
                lemma_halts(o, s0, 1, none, m1.eval(lhs), m1, m, h);
            },
            Ok(a) => {
                let f2 = FrameView { phase: Phase::Rhs, saved: a.value, ..f0 };
                let ma = with(m, a.env, a.value, a.count);
                assert(settled(m1, a) == ma.push(f1));
                lemma_on(o, s0, 1, m1.eval(lhs), none, a.steps, ma.push(f1), a.out, a.out);
                // The step between the operands.
                let m2 = ma.push(f2);
                lemma_top(o, ma, f1);
                assert(ran(o, ma.push(f1), 1, m2.eval(rhs), none));
                lemma_on(o, s0, 1 + a.steps, ma.push(f1), a.out, 1, m2.eval(rhs), none, a.out);
                assert(m2.env() == a.env);
                lemma_eval(o, rhs, less, m2);
                match eval(o, rhs, a.env, a.count, less) {
                    Err(Stop::OutOfFuel) => {},
                    Err(Stop::Fault(h)) => {
                        lemma_halts(o, s0, a.steps + 2, a.out, m2.eval(rhs), m2, m, h);
                    },
                    Ok(b) => {
                        let r = eval(o, node, m.env(), m.count, fuel)->Ok_0;
                        let mb = with(m, b.env, b.value, b.count);
                        assert(m2.envs.drop_last().push(b.env) =~= m.envs.drop_last().push(b.env));
                        assert(settled(m2, b) == mb.push(f2));
                        lemma_on(
                            o,
                            s0,
                            a.steps + 2,
                            m2.eval(rhs),
                            a.out,
                            b.steps,
                            mb.push(f2),
                            b.out,
                            r.out,
                        );
                        // The operation.
                        lemma_top(o, mb, f2);
                        let done = with(m, b.env, r.value, b.count);
                        assert(mb.envs.drop_last().push(b.env) =~= mb.envs);
                        if renders(op, a.value, b.value) {
                            let shown = if a.value is Number {
                                (o.show)(number_of(a.value))
                            } else {
                                (o.show)(number_of(b.value))
                            };
                            let f3 = FrameView {
                                phase: Phase::Joined,
                                saved: Node::Text(
                                    text_of(
                                        if a.value is Number {
                                            b.value
                                        } else {
                                            a.value
                                        },
                                    ),
                                ),
                                index: if a.value is Number {
                                    0
                                } else {
                                    1
                                },
                                ..f2
                            };
                            let mc = with(m, b.env, shown, b.count);
                            assert(ran(o, mb.push(f2), 1, mc.push(f3), none));
                            lemma_top(o, mc, f3);
                            assert(ran(o, mc.push(f3), 1, done, none));
                            lemma_on(o, mb.push(f2), 1, mc.push(f3), none, 1, done, none, none);
                            lemma_on(
                                o,
                                s0,
                                a.steps + 2 + b.steps,
                                mb.push(f2),
                                r.out,
                                2,
                                done,
                                none,
                                r.out,
                            );
                        } else {
                            assert(ran(o, mb.push(f2), 1, done, none));
                            lemma_on(
                                o,
                                s0,
                                a.steps + 2 + b.steps,
                                mb.push(f2),
                                r.out,
                                1,
                                done,
                                none,
                                r.out,
                            );
                        }
                    },
                }
            },
        }
    }
}

/// The machine agrees with the meaning of a write.
proof fn lemma_assign(
    o: Numbers,
    op: AssignOp,
    name: Seq<char>,
    value: Node,
    fuel: nat,
    m: MachineView,
)
    requires
        m.wf(),
    ensures
        agrees(
            o,
            m.eval(Node::Assign(op, name, Box::new(value))),
            m,
            eval(o, Node::Assign(op, name, Box::new(value)), m.env(), m.count, fuel),
        ),
    decreases fuel, 1nat,
{
    let node = Node::Assign(op, name, Box::new(value));
    let none = Seq::<Seq<char>>::empty();
    if fuel > 0 {
        let less = (fuel - 1) as nat;
        let f0 = start_frame(node);
        let f1 = FrameView { phase: Phase::Value, ..f0 };
        let f2 = FrameView { phase: Phase::Stored, ..f0 };
        let s0 = m.eval(node);
        let m1 = m.push(f1);
        lemma_top(o, m, f0);
        assert(ran(o, s0, 1, m1.eval(value), none));
        lemma_eval(o, value, less, m1);
        match eval(o, value, m.env(), m.count, less) {
            Err(Stop::OutOfFuel) => {},
            Err(Stop::Fault(h)) => {
                lemma_halts(o, s0, 1, none, m1.eval(value), m1, m, h);
            },
            Ok(v) => {
                let r = eval(o, node, m.env(), m.count, fuel)->Ok_0;
                let mv = with(m, v.env, v.value, v.count);
                assert(settled(m1, v) == mv.push(f1));
                lemma_on(o, s0, 1, m1.eval(value), none, v.steps, mv.push(f1), v.out, v.out);
                lemma_top(o, mv, f1);
                let done = with(m, r.env, Node::Nothing, v.count);
                assert(mv.envs.drop_last().push(r.env) =~= m.envs.drop_last().push(r.env));
                assert(mv.envs.drop_last().push(v.env) =~= mv.envs);
                if computes(op, name, v.value, v.env) {
                    let answer = if op == AssignOp::AddEq {
                        (o.arith)(BinaryOp::Add, number_of(v.env.numbers[name]), number_of(v.value))
                    } else {
                        (o.arith)(BinaryOp::Sub, number_of(v.env.numbers[name]), number_of(v.value))
                    };
                    let mc = with(m, v.env, answer, v.count);
                    assert(ran(o, mv.push(f1), 1, mc.push(f2), none));
                    lemma_top(o, mc, f2);
                    assert(mc.envs.drop_last().push(r.env) =~= m.envs.drop_last().push(r.env));
                    assert(mc.envs.drop_last().push(v.env) =~= mc.envs);
                    assert(ran(o, mc.push(f2), 1, done, none));
                    lemma_on(o, mv.push(f1), 1, mc.push(f2), none, 1, done, none, none);
                    lemma_on(o, s0, 1 + v.steps, mv.push(f1), v.out, 2, done, none, v.out);
                } else {
                    assert(ran(o, mv.push(f1), 1, done, none));
                    lemma_on(o, s0, 1 + v.steps, mv.push(f1), v.out, 1, done, none, v.out);
                }
            },
        }
    }
}

/// Whether the frame `f` runs the statements of `body` in the mode `mode`.
pub open spec fn runs(f: FrameView, mode: Mode, body: Seq<Node>) -> bool {
    match mode {
        Mode::Body => f.phase == Phase::Body && f.node is FunctionCall && (f.saved matches Node::FunctionDecl(
            _,
            _,
            b,
        ) && b == body),
        Mode::Branch => f.node matches Node::IfStatement(_, b, _, e) && ((f.phase == Phase::Then
            && b == body) || (f.phase == Phase::Else && e == body)),
        Mode::Round => (f.phase == Phase::Loop && (f.node matches Node::ConditionalLoop(_, b)
            && b == body)) || (f.phase == Phase::Steps && (f.node matches Node::IncrementingLoop(
            _,
            _,
            _,
            b,
        ) && b == body)),
    }
}

/// The machine after the frame `f` has run its statements: a round leaves
/// the loop's frame, ready for what comes after the round.
pub open spec fn after_list(m: MachineView, f: FrameView, mode: Mode) -> MachineView {
    if mode == Mode::Round {
        m.push(
            FrameView {
                phase: if f.phase == Phase::Loop {
                    Phase::Start
                } else {
                    Phase::Next
                },
                index: 0,
                ..f
            },
        )
    } else {
        m
    }
}

/// As `agrees`, for the frame `f` that runs a list of statements on the
/// machine `m`.
pub open spec fn list_agrees(
    o: Numbers,
    m: MachineView,
    f: FrameView,
    mode: Mode,
    result: Result<Outcome, Stop>,
) -> bool {
    match result {
        Ok(r) => ran(o, m.push(f), r.steps, after_list(settled(m, r), f, mode), r.out),
        _ => agrees(o, m.push(f), m, result),
    }
}

/// The machine agrees with the meaning of a list of statements.
proof fn lemma_list(
    o: Numbers,
    mode: Mode,
    body: Seq<Node>,
    from: int,
    last: Node,
    fuel: nat,
    m: MachineView,
    f: FrameView,
)
    requires
        m.wf(),
        runs(f, mode, body),
        f.index == from,
        0 <= from,
        mode == Mode::Branch || m.acc == last,
    ensures
        list_agrees(
            o,
            m,
            f,
            mode,
            eval_list(o, mode, body, from, m.env(), m.count, last, fuel),
        ),
    decreases fuel, body.len() - from + 3,
{
    let none = Seq::<Seq<char>>::empty();
    lemma_top(o, m, f);
    assert(m.envs.drop_last().push(m.env()) =~= m.envs);
    if (mode == Mode::Round && from > 0 && last is LoopBreak) || !(0 <= from < body.len()) {
    } else {
        let f1 = FrameView { index: from + 1, ..f };
        let m1 = m.push(f1);
        assert(ran(o, m.push(f), 1, m1.eval(body[from]), none));
        lemma_eval(o, body[from], fuel, m1);
        match eval(o, body[from], m.env(), m.count, fuel) {
            Err(Stop::OutOfFuel) => {},
            Err(Stop::Fault(h)) => {
                lemma_halts(o, m.push(f), 1, none, m1.eval(body[from]), m1, m, h);
            },
            Ok(s) => {
                let ms = with(m, s.env, s.value, s.count);
                assert(settled(m1, s) == ms.push(f1));
                lemma_on(
                    o,
                    m.push(f),
                    1,
                    m1.eval(body[from]),
                    none,
                    s.steps,
                    ms.push(f1),
                    s.out,
                    s.out,
                );
                lemma_list(o, mode, body, from + 1, s.value, fuel, ms, f1);
                match eval_list(o, mode, body, from + 1, s.env, s.count, s.value, fuel) {
                    Err(Stop::OutOfFuel) => {},
                    Err(Stop::Fault(h)) => {
                        assert(ms.envs.drop_last() =~= m.envs.drop_last());
                        lemma_halts(o, m.push(f), s.steps + 1, s.out, ms.push(f1), ms, m, h);
                    },
                    Ok(rest) => {
                        let r = eval_list(o, mode, body, from, m.env(), m.count, last, fuel)->Ok_0;
                        assert(ms.envs.drop_last().push(rest.env) =~= m.envs.drop_last().push(
                            rest.env,
                        ));
                        let end = after_list(settled(ms, rest), f1, mode);
                        assert(end == after_list(settled(m, r), f, mode));
                        lemma_on(
                            o,
                            m.push(f),
                            1 + s.steps,
                            ms.push(f1),
                            s.out,
                            rest.steps,
                            end,
                            rest.out,
                            r.out,
                        );
                    },
                }
            },
        }
    }
}

/// The value of a branch is nothing.
proof fn lemma_branch_is_nothing(
    o: Numbers,
    body: Seq<Node>,
    from: int,
    env: Environment,
    count: int,
    last: Node,
    fuel: nat,
)
    requires
        0 <= from,
    ensures
        eval_list(o, Mode::Branch, body, from, env, count, last, fuel) matches Ok(r) ==> r.value
            == Node::Nothing,
    decreases body.len() - from,
{
    if from < body.len() {
        match eval(o, body[from], env, count, fuel) {
            Ok(s) => {
                lemma_branch_is_nothing(o, body, from + 1, s.env, s.count, s.value, fuel);
            },
            Err(_) => {},
        }
    }
}

/// The value of the rounds of an incrementing loop is nothing.
proof fn lemma_rounds_are_nothing(
    o: Numbers,
    name: Seq<char>,
    body: Seq<Node>,
    low: int,
    high: int,
    env: Environment,
    count: int,
    fuel: nat,
)
    ensures
        eval_rounds(o, name, body, low, high, env, count, fuel) matches Ok(r) ==> r.value
            == Node::Nothing,
    decreases high - low,
{
    if low < high {
        let number = (o.from_int)(low);
        match eval_list(o, Mode::Round, body, 0, env.bind(name, number), count, number, fuel) {
            Ok(round) => {
                lemma_rounds_are_nothing(o, name, body, low + 1, high, round.env, round.count, fuel);
            },
            Err(_) => {},
        }
    }
}

/// The machine agrees with the meaning of a call.
proof fn lemma_call(o: Numbers, name: Seq<char>, args: Seq<Node>, fuel: nat, m: MachineView)
    requires
        m.wf(),
    ensures
        agrees(
            o,
            m.eval(Node::FunctionCall(name, args)),
            m,
            eval_call(o, name, args, m.env(), m.count, fuel),
        ),
    decreases fuel, 3nat,
{
    let node = Node::FunctionCall(name, args);
    let whole = eval_call(o, name, args, m.env(), m.count, fuel);
    let none = Seq::<Seq<char>>::empty();
    let f0 = start_frame(node);
    let s0 = m.eval(node);
    let env = m.env();
    lemma_top(o, m, f0);
    assert(m.envs.drop_last().push(env) =~= m.envs);
    assert(m.envs.take(1) =~= m.envs.drop_last().push(env).take(1));
    if name == "print"@ {
        if args.len() > 0 {
            let f1 = FrameView { phase: Phase::Argument, ..f0 };
            let f2 = FrameView { phase: Phase::Shown, ..f0 };
            let m1 = m.push(f1);
            assert(ran(o, s0, 1, m1.eval(args[0]), none));
            lemma_eval(o, args[0], fuel, m1);
            match eval(o, args[0], env, m.count, fuel) {
                Err(Stop::OutOfFuel) => {},
                Err(Stop::Fault(h)) => {
                    lemma_halts(o, s0, 1, none, m1.eval(args[0]), m1, m, h);
                },
                Ok(a) => {
                    let r = whole->Ok_0;
                    let ma = with(m, a.env, a.value, a.count);
                    assert(settled(m1, a) == ma.push(f1));
                    lemma_on(o, s0, 1, m1.eval(args[0]), none, a.steps, ma.push(f1), a.out, a.out);
                    lemma_top(o, ma, f1);
                    let done = with(m, a.env, Node::Nothing, a.count);
                    assert(ma.envs.drop_last().push(a.env) =~= ma.envs);
                    let lines = lines_of(o, a.value);
                    match a.value {
                        Node::Number(n) => {
                            let mc = with(m, a.env, (o.show)(n), a.count);
                            assert(ran(o, ma.push(f1), 1, mc.push(f2), none));
                            lemma_top(o, mc, f2);
                            assert(mc.envs.drop_last().push(a.env) =~= mc.envs);
                            assert(ran(o, mc.push(f2), 1, done, lines));
                            lemma_on(o, ma.push(f1), 1, mc.push(f2), none, 1, done, lines, lines);
                            lemma_on(
                                o,
                                s0,
                                1 + a.steps,
                                ma.push(f1),
                                a.out,
                                2,
                                done,
                                lines,
                                r.out,
                            );
                        },
                        _ => {
                            assert(ran(o, ma.push(f1), 1, done, lines));
                            lemma_on(
                                o,
                                s0,
                                1 + a.steps,
                                ma.push(f1),
                                a.out,
                                1,
                                done,
                                lines,
                                r.out,
                            );
                        },
                    }
                },
            }
        }
    } else if name == "return"@ {
        if args.len() > 0 {
            assert(ran(o, s0, 1, m.eval(args[0]), none));
            lemma_eval(o, args[0], fuel, m);
            match eval(o, args[0], env, m.count, fuel) {
                Err(Stop::OutOfFuel) => {},
                Err(Stop::Fault(h)) => {
                    lemma_halts(o, s0, 1, none, m.eval(args[0]), m, m, h);
                },
                Ok(a) => {
                    let r = whole->Ok_0;
                    lemma_on(o, s0, 1, m.eval(args[0]), none, a.steps, settled(m, a), a.out, a.out);
                    assert(settled(m, a) == settled(m, r));
                },
            }
        }
    } else if env.functions.contains_key(name) {
        match env.functions[name] {
            Node::FunctionDecl(_, params, body) => {
                if args.len() >= params.len() && fuel > 0 {
                    let less = (fuel - 1) as nat;
                    let callee = bind_arguments(env.child(), params, args, env, 0);
                    let fb = FrameView {
                        phase: Phase::Body,
                        saved: env.functions[name],
                        index: 0,
                        ..f0
                    };
                    let base = m.enter(callee).result(Node::Nothing);
                    assert(ran(o, s0, 1, base.push(fb), none));
                    lemma_list(o, Mode::Body, body, 0, Node::Nothing, less, base, fb);
                    assert(base.envs.drop_last() =~= m.envs);
                    match eval_list(o, Mode::Body, body, 0, callee, m.count, Node::Nothing, less) {
                        Err(Stop::OutOfFuel) => {},
                        Err(Stop::Fault(h)) => {
                            lemma_halts_inside(o, s0, 1, none, base.push(fb), base, m, env, h);
                        },
                        Ok(b) => {
                            let r = whole->Ok_0;
                            let inner = settled(base, b);
                            lemma_on(o, s0, 1, base.push(fb), none, b.steps, inner, b.out, b.out);
                            let bare = MachineView { stack: m.stack, ..inner };
                            assert(inner == bare.push(leave_frame()));
                            lemma_top(o, bare, leave_frame());
                            assert(bare.envs.drop_last() =~= m.envs);
                            assert(ran(o, inner, 1, settled(m, r), none));
                            lemma_on(o, s0, 1 + b.steps, inner, b.out, 1, settled(m, r), none, r.out);
                        },
                    }
                }
            },
            _ => {},
        }
    }
}

/// The machine agrees with the meaning of a conditional.
proof fn lemma_if(
    o: Numbers,
    cond: Node,
    body: Seq<Node>,
    has_else: bool,
    else_body: Seq<Node>,
    fuel: nat,
    m: MachineView,
)
    requires
        m.wf(),
    ensures
        agrees(
            o,
            m.eval(Node::IfStatement(Box::new(cond), body, has_else, else_body)),
            m,
            eval(
                o,
                Node::IfStatement(Box::new(cond), body, has_else, else_body),
                m.env(),
                m.count,
                fuel,
            ),
        ),
    decreases fuel, 1nat,
{
    let node = Node::IfStatement(Box::new(cond), body, has_else, else_body);
    let none = Seq::<Seq<char>>::empty();
    if fuel > 0 {
        let less = (fuel - 1) as nat;
        let f0 = start_frame(node);
        let f1 = FrameView { phase: Phase::Condition, ..f0 };
        let f2 = FrameView { phase: Phase::Truth, ..f0 };
        let s0 = m.eval(node);
        let m1 = m.push(f1);
        lemma_top(o, m, f0);
        assert(ran(o, s0, 1, m1.eval(cond), none));
        lemma_eval(o, cond, less, m1);
        match eval(o, cond, m.env(), m.count, less) {
            Err(Stop::OutOfFuel) => {},
            Err(Stop::Fault(h)) => {
                lemma_halts(o, s0, 1, none, m1.eval(cond), m1, m, h);
            },
            Ok(c) => {
                let mc = with(m, c.env, c.value, c.count);
                assert(settled(m1, c) == mc.push(f1));
                lemma_on(o, s0, 1, m1.eval(cond), none, c.steps, mc.push(f1), c.out, c.out);
                lemma_top(o, mc, f1);
                assert(mc.envs.drop_last().push(c.env) =~= mc.envs);
                let truth = truth_of(o, c.value);
                // The machine when the branch is chosen, and the steps up to
                // there.
                let tested = if c.value is Number {
                    with(m, c.env, (o.arith)(BinaryOp::NeqCheck, number_of(c.value), "0"@), c.count)
                } else {
                    mc
                };
                let chosen = take_branch(tested, f0, truth, has_else).0;
                let before: nat = if c.value is Number {
                    2
                } else {
                    1
                };
                assert(tested.envs.drop_last().push(c.env) =~= tested.envs);
                if c.value is Number {
                    assert(ran(o, mc.push(f1), 1, tested.push(f2), none));
                    lemma_top(o, tested, f2);
                    assert(ran(o, tested.push(f2), 1, chosen, none));
                    lemma_on(o, mc.push(f1), 1, tested.push(f2), none, 1, chosen, none, none);
                } else {
                    assert(ran(o, mc.push(f1), 1, chosen, none));
                }
                lemma_on(o, s0, 1 + c.steps, mc.push(f1), c.out, before, chosen, none, c.out);
                if truth || has_else {
                    let taken = if truth {
                        body
                    } else {
                        else_body
                    };
                    let fb = FrameView {
                        phase: if truth {
                            Phase::Then
                        } else {
                            Phase::Else
                        },
                        index: 0,
                        ..f0
                    };
                    assert(chosen == tested.push(fb));
                    lemma_list(o, Mode::Branch, taken, 0, Node::Nothing, less, tested, fb);
                    assert(tested.envs.drop_last() =~= m.envs.drop_last());
                    match eval_list(
                        o,
                        Mode::Branch,
                        taken,
                        0,
                        c.env,
                        c.count,
                        Node::Nothing,
                        less,
                    ) {
                        Err(Stop::OutOfFuel) => {},
                        Err(Stop::Fault(h)) => {
                            lemma_halts(o, s0, c.steps + 1 + before, c.out, chosen, tested, m, h);
                        },
                        Ok(b) => {
                            let r = eval(o, node, m.env(), m.count, fuel)->Ok_0;
                            assert(tested.envs.drop_last().push(b.env) =~= m.envs.drop_last().push(
                                b.env,
                            ));
                            lemma_branch_is_nothing(
                                o,
                                taken,
                                0,
                                c.env,
                                c.count,
                                Node::Nothing,
                                less,
                            );
                            assert(settled(tested, b) == settled(m, r));
                            lemma_on(
                                o,
                                s0,
                                1 + c.steps + before,
                                chosen,
                                c.out,
                                b.steps,
                                settled(m, r),
                                b.out,
                                r.out,
                            );
                        },
                    }
                } else {
                    let r = eval(o, node, m.env(), m.count, fuel)->Ok_0;
                    assert(chosen == settled(m, r));
                }
            },
        }
    }
}

/// The machine agrees with the meaning of a conditional loop.
proof fn lemma_while(o: Numbers, cond: Node, body: Seq<Node>, fuel: nat, m: MachineView)
    requires
        m.wf(),
    ensures
        agrees(
            o,
            m.eval(Node::ConditionalLoop(Box::new(cond), body)),
            m,
            eval_while(o, cond, body, m.env(), m.count, fuel),
        ),
    decreases fuel, body.len() + 4,
{
    let node = Node::ConditionalLoop(Box::new(cond), body);
    let whole = eval_while(o, cond, body, m.env(), m.count, fuel);
    let none = Seq::<Seq<char>>::empty();
    let f0 = start_frame(node);
    let f1 = FrameView { phase: Phase::Condition, ..f0 };
    let f2 = FrameView { phase: Phase::Loop, index: 0, ..f0 };
    let s0 = m.eval(node);
    let m1 = m.push(f1);
    lemma_top(o, m, f0);
    assert(ran(o, s0, 1, m1.eval(cond), none));
    lemma_eval(o, cond, fuel, m1);
    match eval(o, cond, m.env(), m.count, fuel) {
        Err(Stop::OutOfFuel) => {},
        Err(Stop::Fault(h)) => {
            lemma_halts(o, s0, 1, none, m1.eval(cond), m1, m, h);
        },
        Ok(c) => {
            let mc = with(m, c.env, c.value, c.count);
            assert(settled(m1, c) == mc.push(f1));
            lemma_on(o, s0, 1, m1.eval(cond), none, c.steps, mc.push(f1), c.out, c.out);
            lemma_top(o, mc, f1);
            assert(mc.envs.drop_last().push(c.env) =~= mc.envs);
            assert(mc.envs.drop_last() =~= m.envs.drop_last());
            if c.value == Node::Boolean(true) {
                assert(ran(o, mc.push(f1), 1, mc.push(f2), none));
                lemma_on(o, s0, 1 + c.steps, mc.push(f1), c.out, 1, mc.push(f2), none, c.out);
                lemma_list(o, Mode::Round, body, 0, c.value, fuel, mc, f2);
                match eval_list(o, Mode::Round, body, 0, c.env, c.count, c.value, fuel) {
                    Err(Stop::OutOfFuel) => {},
                    Err(Stop::Fault(h)) => {
                        lemma_halts(o, s0, c.steps + 2, c.out, mc.push(f2), mc, m, h);
                    },
                    Ok(round) => {
                        if fuel > 0 {
                            let less = (fuel - 1) as nat;
                            let mr = with(m, round.env, round.value, round.count);
                            assert(mc.envs.drop_last().push(round.env) =~= m.envs.drop_last().push(
                                round.env,
                            ));
                            assert(after_list(settled(mc, round), f2, Mode::Round) == mr.eval(
                                node,
                            ));
                            lemma_on(
                                o,
                                s0,
                                c.steps + 2,
                                mc.push(f2),
                                c.out,
                                round.steps,
                                mr.eval(node),
                                round.out,
                                c.out + round.out,
                            );
                            lemma_while(o, cond, body, less, mr);
                            assert(mr.envs.drop_last() =~= m.envs.drop_last());
                            match eval_while(o, cond, body, round.env, round.count, less) {
                                Err(Stop::OutOfFuel) => {},
                                Err(Stop::Fault(h)) => {
                                    lemma_halts(
                                        o,
                                        s0,
                                        c.steps + round.steps + 2,
                                        c.out + round.out,
                                        mr.eval(node),
                                        mr,
                                        m,
                                        h,
                                    );
                                },
                                Ok(again) => {
                                    let r = whole->Ok_0;
                                    assert(mr.envs.drop_last().push(again.env)
                                        =~= m.envs.drop_last().push(again.env));
                                    assert(settled(mr, again) == settled(m, r));
                                    lemma_on(
                                        o,
                                        s0,
                                        c.steps + 2 + round.steps,
                                        mr.eval(node),
                                        c.out + round.out,
                                        again.steps,
                                        settled(m, r),
                                        again.out,
                                        r.out,
                                    );
                                },
                            }
                        }
                    },
                }
            } else {
                let r = whole->Ok_0;
                assert(ran(o, mc.push(f1), 1, settled(m, r), none));
                lemma_on(o, s0, 1 + c.steps, mc.push(f1), c.out, 1, settled(m, r), none, r.out);
            }
        },
    }
}

/// The machine agrees with the meaning of the rounds of an incrementing loop.
proof fn lemma_rounds(
    o: Numbers,
    name: Seq<char>,
    body: Seq<Node>,
    low: int,
    high: int,
    fuel: nat,
    m: MachineView,
    f: FrameView,
)
    requires
        m.wf(),
        f.node matches Node::IncrementingLoop(n, _, _, b) && n == name && b == body,
        f.phase == Phase::Next,
        f.index == 0,
        f.low == low,
        f.high == high,
    ensures
        agrees(o, m.push(f), m, eval_rounds(o, name, body, low, high, m.env(), m.count, fuel)),
    decreases fuel,
        body.len() + 4 + if low < high {
            high - low
        } else {
            0
        },
{
    let whole = eval_rounds(o, name, body, low, high, m.env(), m.count, fuel);
    let none = Seq::<Seq<char>>::empty();
    let s0 = m.push(f);
    lemma_top(o, m, f);
    assert(m.envs.drop_last().push(m.env()) =~= m.envs);
    if low < high {
        let number = (o.from_int)(low);
        let inside = m.env().bind(name, number);
        let f1 = FrameView { phase: Phase::Iteration, low: low + 1, ..f };
        let f2 = FrameView { phase: Phase::Steps, index: 0, ..f1 };
        let f3 = FrameView { phase: Phase::Next, ..f1 };
        let mn = m.result(number);
        assert(ran(o, s0, 1, mn.push(f1), none));
        lemma_top(o, mn, f1);
        let me = with(m, inside, number, m.count);
        assert(ran(o, mn.push(f1), 1, me.push(f2), none));
        lemma_on(o, s0, 1, mn.push(f1), none, 1, me.push(f2), none, none);
        lemma_list(o, Mode::Round, body, 0, number, fuel, me, f2);
        assert(me.envs.drop_last() =~= m.envs.drop_last());
        match eval_list(o, Mode::Round, body, 0, inside, m.count, number, fuel) {
            Err(Stop::OutOfFuel) => {},
            Err(Stop::Fault(h)) => {
                lemma_halts(o, s0, 2, none, me.push(f2), me, m, h);
            },
            Ok(round) => {
                let mr = with(m, round.env, round.value, round.count);
                assert(me.envs.drop_last().push(round.env) =~= m.envs.drop_last().push(round.env));
                assert(after_list(settled(me, round), f2, Mode::Round) == mr.push(f3));
                lemma_on(o, s0, 2, me.push(f2), none, round.steps, mr.push(f3), round.out, round.out);
                lemma_rounds(o, name, body, low + 1, high, fuel, mr, f3);
                assert(mr.envs.drop_last() =~= m.envs.drop_last());
                match eval_rounds(o, name, body, low + 1, high, round.env, round.count, fuel) {
                    Err(Stop::OutOfFuel) => {},
                    Err(Stop::Fault(h)) => {
                        lemma_halts(o, s0, round.steps + 2, round.out, mr.push(f3), mr, m, h);
                    },
                    Ok(rest) => {
                        let r = whole->Ok_0;
                        assert(mr.envs.drop_last().push(rest.env) =~= m.envs.drop_last().push(
                            rest.env,
                        ));
                        assert(settled(mr, rest) == settled(m, r));
                        lemma_on(
                            o,
                            s0,
                            2 + round.steps,
                            mr.push(f3),
                            round.out,
                            rest.steps,
                            settled(m, r),
                            rest.out,
                            r.out,
                        );
                    },
                }
            },
        }
    } else {
    }
}

/// The machine agrees with the meaning of an incrementing loop.
proof fn lemma_for(
    o: Numbers,
    name: Seq<char>,
    lower: Node,
    upper: Node,
    body: Seq<Node>,
    fuel: nat,
    m: MachineView,
)
    requires
        m.wf(),
    ensures
        agrees(
            o,
            m.eval(Node::IncrementingLoop(name, Box::new(lower), Box::new(upper), body)),
            m,
            eval(
                o,
                Node::IncrementingLoop(name, Box::new(lower), Box::new(upper), body),
                m.env(),
                m.count,
                fuel,
            ),
        ),
    decreases fuel, 1nat,
{
    let node = Node::IncrementingLoop(name, Box::new(lower), Box::new(upper), body);
    let none = Seq::<Seq<char>>::empty();
    if fuel > 0 {
        let less = (fuel - 1) as nat;
        let f0 = start_frame(node);
        let f1 = FrameView { phase: Phase::Lower, ..f0 };
        let s0 = m.eval(node);
        // The lower bound.
        let m1 = m.push(f1);
        lemma_top(o, m, f0);
        assert(ran(o, s0, 1, m1.eval(lower), none));
        lemma_eval(o, lower, less, m1);
        match eval(o, lower, m.env(), m.count, less) {
            Err(Stop::OutOfFuel) => {},
            Err(Stop::Fault(h)) => {
                lemma_halts(o, s0, 1, none, m1.eval(lower), m1, m, h);
            },
            Ok(lo) => {
                let low = bound_of(o, lo.value);
                let seed = Node::Number(number_of(lo.value));
                let f2 = FrameView { phase: Phase::LowerInt, saved: seed, ..f0 };
                let f3 = FrameView { phase: Phase::Upper, low, ..f2 };
                let ml = with(m, lo.env, lo.value, lo.count);
                assert(settled(m1, lo) == ml.push(f1));
                lemma_on(o, s0, 1, m1.eval(lower), none, lo.steps, ml.push(f1), lo.out, lo.out);
                lemma_top(o, ml, f1);
                let mi = with(m, lo.env, lo.value, low);
                assert(ran(o, ml.push(f1), 1, mi.push(f2), none));
                lemma_on(o, s0, 1 + lo.steps, ml.push(f1), lo.out, 1, mi.push(f2), none, lo.out);
                // The upper bound.
                lemma_top(o, mi, f2);
                let m3 = mi.push(f3);
                assert(ran(o, mi.push(f2), 1, m3.eval(upper), none));
                lemma_on(o, s0, lo.steps + 2, mi.push(f2), lo.out, 1, m3.eval(upper), none, lo.out);
                assert(m3.env() == lo.env);
                lemma_eval(o, upper, less, m3);
                assert(m3.envs.drop_last() =~= m.envs.drop_last());
                match eval(o, upper, lo.env, low, less) {
                    Err(Stop::OutOfFuel) => {},
                    Err(Stop::Fault(h)) => {
                        lemma_halts(o, s0, lo.steps + 3, lo.out, m3.eval(upper), m3, m, h);
                    },
                    Ok(hi) => {
                        let high = bound_of(o, hi.value);
                        let inside = hi.env.bind(name, seed);
                        let f4 = FrameView { phase: Phase::UpperInt, ..f3 };
                        let f5 = FrameView { phase: Phase::Next, high, ..f3 };
                        let mh = with(m, hi.env, hi.value, hi.count);
                        assert(m3.envs.drop_last().push(hi.env) =~= m.envs.drop_last().push(
                            hi.env,
                        ));
                        assert(settled(m3, hi) == mh.push(f3));
                        lemma_on(
                            o,
                            s0,
                            lo.steps + 3,
                            m3.eval(upper),
                            lo.out,
                            hi.steps,
                            mh.push(f3),
                            hi.out,
                            lo.out + hi.out,
                        );
                        lemma_top(o, mh, f3);
                        let mj = with(m, hi.env, hi.value, high);
                        assert(ran(o, mh.push(f3), 1, mj.push(f4), none));
                        lemma_on(
                            o,
                            s0,
                            lo.steps + 3 + hi.steps,
                            mh.push(f3),
                            lo.out + hi.out,
                            1,
                            mj.push(f4),
                            none,
                            lo.out + hi.out,
                        );
                        // The loop's own environment and its rounds.
                        lemma_top(o, mj, f4);
                        let base = mj.enter(inside);
                        assert(mj.env() == hi.env);
                        assert(ran(o, mj.push(f4), 1, base.push(f5), none));
                        lemma_on(
                            o,
                            s0,
                            lo.steps + 4 + hi.steps,
                            mj.push(f4),
                            lo.out + hi.out,
                            1,
                            base.push(f5),
                            none,
                            lo.out + hi.out,
                        );
                        lemma_rounds(o, name, body, low, high, less, base, f5);
                        lemma_rounds_are_nothing(o, name, body, low, high, inside, high, less);
                        assert(base.envs.drop_last() =~= m.envs.drop_last().push(hi.env));
                        match eval_rounds(o, name, body, low, high, inside, high, less) {
                            Err(Stop::OutOfFuel) => {},
                            Err(Stop::Fault(h)) => {
                                lemma_halts_inside(
                                    o,
                                    s0,
                                    lo.steps + hi.steps + 5,
                                    lo.out + hi.out,
                                    base.push(f5),
                                    base,
                                    m,
                                    hi.env,
                                    h,
                                );
                            },
                            Ok(rounds) => {
                                let r = eval(o, node, m.env(), m.count, fuel)->Ok_0;
                                let inner = settled(base, rounds);
                                lemma_on(
                                    o,
                                    s0,
                                    lo.steps + 5 + hi.steps,
                                    base.push(f5),
                                    lo.out + hi.out,
                                    rounds.steps,
                                    inner,
                                    rounds.out,
                                    r.out,
                                );
                                // The end of the loop drops its environment.
                                let bare = MachineView { stack: m.stack, ..inner };
                                assert(inner == bare.push(leave_frame()));
                                lemma_top(o, bare, leave_frame());
                                assert(bare.envs.drop_last() =~= m.envs.drop_last().push(hi.env));
                                assert(ran(o, inner, 1, settled(m, r), none));
                                lemma_on(
                                    o,
                                    s0,
                                    lo.steps + 5 + hi.steps + rounds.steps,
                                    inner,
                                    r.out,
                                    1,
                                    settled(m, r),
                                    none,
                                    r.out,
                                );
                            },
                        }
                    },
                }
            },
        }
    }
}

/// The machine agrees with the meaning of a node.
proof fn lemma_eval(o: Numbers, node: Node, fuel: nat, m: MachineView)
    requires
        m.wf(),
    ensures
        agrees(o, m.eval(node), m, eval(o, node, m.env(), m.count, fuel)),
    decreases fuel, 2nat,
{
    if fuel > 0 {
        match node {
            Node::Binary(op, lhs, rhs) => {
                lemma_binary(o, op, *lhs, *rhs, fuel, m);
            },
            Node::Assign(op, name, value) => {
                lemma_assign(o, op, name, *value, fuel, m);
            },
            Node::FunctionCall(name, args) => {
                lemma_call(o, name, args, (fuel - 1) as nat, m);
            },
            Node::IfStatement(cond, body, has_else, else_body) => {
                lemma_if(o, *cond, body, has_else, else_body, fuel, m);
            },
            Node::ConditionalLoop(cond, body) => {
                lemma_while(o, *cond, body, (fuel - 1) as nat, m);
            },
            Node::IncrementingLoop(name, lower, upper, body) => {
                lemma_for(o, name, *lower, *upper, body, fuel, m);
            },
            _ => {
                lemma_leaf(o, node, fuel, m);
            },
        }
    }
}

/// The machine computes the meaning, whatever the caller's arithmetic is.
///
/// Let `node` be loaded on a machine `m` that has an environment. If, with
/// enough fuel, `node` has an outcome in the current environment of `m`,
/// then after as many steps as the outcome says, each followed by the
/// caller's answer, the machine is `m` with the environment that the outcome
/// leaves in place of the current one and with the outcome's value as the
/// value computed last; its frames and its outer environments are as they
/// were, the lines printed are the outcome's, and no fault was told. If the
/// evaluation of `node` is abandoned, then after as many steps as that takes
/// the machine has told that fault and no other, has printed the lines that
/// came before it, and is left without frames and with its first
/// environment only.
pub proof fn law_machine_computes_meaning(o: Numbers, node: Node, fuel: nat, m: MachineView)
    requires
        m.wf(),
    ensures
        match eval(o, node, m.env(), m.count, fuel) {
            Ok(r) => run(o, m.eval(node), r.steps) == (
                MachineView {
                    stack: m.stack,
                    envs: m.envs.drop_last().push(r.env),
                    acc: r.value,
                    count: r.count,
                },
                Seen { out: r.out, faults: Seq::empty() },
            ),
            Err(Stop::Fault(h)) => run(o, m.eval(node), h.steps) == (
                MachineView {
                    stack: Seq::empty(),
                    envs: m.envs.drop_last().push(h.env).take(1),
                    acc: Node::Nothing,
                    count: h.count,
                },
                Seen { out: h.out, faults: seq![h.fault] },
            ),
            Err(Stop::OutOfFuel) => true,
        },
{
    lemma_eval(o, node, fuel, m);
}

} // verus!
