//! Parsing reads back what was spelled: the tokens that spell a tree parse
//! to that tree.

use vstd::prelude::*;
use crate::ast::{AssignOp, Node};
use crate::grammar::{
    atom_node, builtin_names, ends_atom, is_literal, parse_args_spec, parse_block_spec,
    parse_braced_spec, parse_call_spec, parse_else_spec, parse_expr_spec, parse_params_spec,
    parse_program_spec, parse_rest_spec, parse_spec, Failure, Parsed, ParsedList, ParsedNames,
};
use crate::spelling::{
    are_arguments, are_statements, assign_token, atom_lexeme, braced, can_all_be_written,
    can_be_written, ident, is_atom, is_expression, is_statement, known_after, known_after_list,
    op_token, scans_alone, separated, sign, spelled, spelled_list, spelled_params,
    spelled_program, spelling, stands_at, written,
};
use crate::scanner::{
    in_class, is_space, lemma_run_end, lexeme_at, run_end, scan_from, scan_spec, word_kind,
    CharClass,
};
use crate::program::{program_of, SyntaxFailure};
use crate::token::{Lexeme, Token};

verus! {

/// Where two parts stand one after the other, each stands.
pub proof fn lemma_split(t: Seq<Lexeme>, pos: int, a: Seq<Lexeme>, b: Seq<Lexeme>)
    requires
        stands_at(t, pos, a + b),
    ensures
        stands_at(t, pos, a),
        stands_at(t, pos + a.len(), b),
{
    let whole = t.subrange(pos, pos + (a + b).len());
    assert(t.subrange(pos, pos + a.len()) =~= whole.subrange(0, a.len() as int));
    assert(whole.subrange(0, a.len() as int) =~= a);
    assert(t.subrange(pos + a.len(), pos + a.len() + b.len()) =~= whole.subrange(
        a.len() as int,
        (a + b).len() as int,
    ));
    assert(whole.subrange(a.len() as int, (a + b).len() as int) =~= b);
}

/// Where a part stands, each of its tokens stands.
pub proof fn lemma_at(t: Seq<Lexeme>, pos: int, part: Seq<Lexeme>, i: int)
    requires
        stands_at(t, pos, part),
        0 <= i < part.len(),
    ensures
        t[pos + i] == part[i],
{
    assert(t.subrange(pos, pos + part.len())[i] == t[pos + i]);
}

/// Whether a token of this kind can be the first of an expression.
pub open spec fn opens_expression(token: Token) -> bool {
    match token {
        Token::KwNone | Token::Number | Token::DecimalNumber | Token::Text | Token::KwTrue => true,
        Token::KwFalse | Token::Identifier => true,
        _ => false,
    }
}

/// Whether a token of this kind can be the first of a statement.
pub open spec fn opens_statement(token: Token) -> bool {
    match token {
        Token::KwLet | Token::KwFn | Token::KwIf | Token::KwLoop => true,
        _ => opens_expression(token),
    }
}

/// The token that spells an atom is read as that atom.
proof fn lemma_atom(node: Node, fns: Seq<Seq<char>>)
    requires
        is_atom(node, fns),
    ensures
        atom_node(atom_lexeme(node)) == node,
        is_literal(atom_lexeme(node).token) || (atom_lexeme(node).token == Token::Identifier
            && !fns.contains(atom_lexeme(node).text)),
{
    match node {
        Node::Text(t) => {
            let quoted = seq!['"'] + t + seq!['"'];
            assert(quoted.subrange(1, quoted.len() - 1) =~= t);
        },
        _ => {},
    }
}

/// What is spelled starts with a token that opens a statement, and with
/// `none` only if it is nothing.
proof fn lemma_first(node: Node, fns: Seq<Seq<char>>)
    requires
        is_statement(node, fns) || is_expression(node, fns),
    ensures
        spelled(node).len() > 0,
        opens_statement(spelled(node)[0].token),
        is_expression(node, fns) ==> opens_expression(spelled(node)[0].token),
        spelled(node)[0].token == Token::KwNone <==> node is Nothing,
{
}

/// The parser reads back an expression.
proof fn lemma_expression(t: Seq<Lexeme>, pos: int, node: Node, fns: Seq<Seq<char>>)
    requires
        is_expression(node, fns),
        stands_at(t, pos, spelled(node)),
        pos + spelled(node).len() < t.len(),
        ends_atom(t[pos + spelled(node).len()].token),
    ensures
        parse_expr_spec(t, pos, fns) == Ok::<Parsed, Failure>(
            Parsed { node, next: pos + spelled(node).len(), fns },
        ),
    decreases node, 1nat,
{
    let sp = spelled(node);
    match node {
        Node::Binary(op, lhs, rhs) => {
            let head = seq![atom_lexeme(*lhs), sign(op_token(op))];
            lemma_split(t, pos, head, spelled(*rhs));
            lemma_at(t, pos, head, 0);
            lemma_at(t, pos, head, 1);
            lemma_atom(*lhs, fns);
            lemma_expression(t, pos + 2, *rhs, fns);
        },
        Node::Assign(op, name, value) => {
            let head = seq![ident(name), sign(assign_token(op))];
            lemma_split(t, pos, head, spelled(*value));
            lemma_at(t, pos, head, 0);
            lemma_at(t, pos, head, 1);
            lemma_expression(t, pos + 2, *value, fns);
        },
        Node::FunctionCall(name, args) => {
            let head = seq![ident(name), sign(Token::KwLParen)];
            let rest = spelled_list(args, 0, Token::KwComma, Token::KwRParen);
            lemma_split(t, pos, head, rest);
            lemma_at(t, pos, head, 0);
            lemma_at(t, pos, head, 1);
            lemma_arguments(t, pos + 2, args, 0, fns);
            assert(args.subrange(0, args.len() as int) =~= args);
            assert(parse_call_spec(t, pos, fns) == Ok::<Parsed, Failure>(
                Parsed { node, next: pos + sp.len(), fns },
            ));
        },
        _ => {
            lemma_at(t, pos, sp, 0);
            if !(node is Nothing) {
                lemma_atom(node, fns);
            }
        },
    }
}

/// The parser reads back the arguments of a call.
proof fn lemma_arguments(t: Seq<Lexeme>, pos: int, args: Seq<Node>, from: int, fns: Seq<Seq<char>>)
    requires
        are_arguments(args, from, fns),
        0 <= from <= args.len(),
        stands_at(t, pos, spelled_list(args, from, Token::KwComma, Token::KwRParen)),
    ensures
        parse_args_spec(t, pos, fns) == Ok::<ParsedList, Failure>(
            ParsedList {
                nodes: args.subrange(from, args.len() as int),
                next: pos + spelled_list(args, from, Token::KwComma, Token::KwRParen).len(),
                fns,
            },
        ),
    decreases args, 0nat, args.len() - from,
{
    let all = spelled_list(args, from, Token::KwComma, Token::KwRParen);
    if from < args.len() {
        let arg = args[from];
        let rest = spelled_list(args, from + 1, Token::KwComma, Token::KwRParen);
        let comma = seq![sign(Token::KwComma)];
        lemma_split(t, pos, spelled(arg), comma + rest);
        let after = pos + spelled(arg).len();
        lemma_split(t, after, comma, rest);
        lemma_at(t, after, comma, 0);
        lemma_first(arg, fns);
        lemma_at(t, pos, spelled(arg), 0);
        lemma_expression(t, pos, arg, fns);
        lemma_arguments(t, after + 1, args, from + 1, fns);
        assert(parse_args_spec(t, after, fns) == parse_args_spec(t, after + 1, fns));
        assert(args.subrange(from, args.len() as int) =~= seq![arg] + args.subrange(
            from + 1,
            args.len() as int,
        ));
    } else {
        lemma_at(t, pos, all, 0);
        assert(args.subrange(from, args.len() as int) =~= Seq::<Node>::empty());
    }
}

/// The parser reads back the parameters of a declaration.
proof fn lemma_params(t: Seq<Lexeme>, pos: int, names: Seq<Seq<char>>, from: int)
    requires
        0 <= from <= names.len(),
        stands_at(t, pos, spelled_params(names, from)),
    ensures
        parse_params_spec(t, pos) == Ok::<ParsedNames, Failure>(
            ParsedNames {
                names: names.subrange(from, names.len() as int),
                next: pos + spelled_params(names, from).len(),
            },
        ),
    decreases names.len() - from,
{
    let all = spelled_params(names, from);
    lemma_at(t, pos, all, 0);
    if from < names.len() {
        lemma_split(t, pos, seq![ident(names[from])], spelled_params(names, from + 1));
        lemma_params(t, pos + 1, names, from + 1);
        assert(names.subrange(from, names.len() as int) =~= seq![names[from]] + names.subrange(
            from + 1,
            names.len() as int,
        ));
    } else {
        assert(names.subrange(from, names.len() as int) =~= Seq::<Seq<char>>::empty());
    }
}

/// The parser reads back the statements of a block.
proof fn lemma_body(t: Seq<Lexeme>, pos: int, body: Seq<Node>, from: int, fns: Seq<Seq<char>>)
    requires
        are_statements(body, from, fns),
        0 <= from <= body.len(),
        stands_at(t, pos, spelled_list(body, from, Token::KwTerminator, Token::KwRBrace)),
    ensures
        parse_block_spec(t, pos, fns) == Ok::<ParsedList, Failure>(
            ParsedList {
                nodes: body.subrange(from, body.len() as int),
                next: pos + spelled_list(body, from, Token::KwTerminator, Token::KwRBrace).len(),
                fns: known_after_list(body, from, fns),
            },
        ),
    decreases body, 0nat, body.len() - from,
{
    let all = spelled_list(body, from, Token::KwTerminator, Token::KwRBrace);
    if from < body.len() {
        let statement = body[from];
        let rest = spelled_list(body, from + 1, Token::KwTerminator, Token::KwRBrace);
        let end = seq![sign(Token::KwTerminator)];
        lemma_split(t, pos, spelled(statement), end + rest);
        let after = pos + spelled(statement).len();
        lemma_split(t, after, end, rest);
        lemma_at(t, after, end, 0);
        lemma_first(statement, fns);
        lemma_at(t, pos, spelled(statement), 0);
        lemma_statement(t, pos, statement, fns);
        let known = known_after(statement, fns);
        lemma_body(t, after + 1, body, from + 1, known);
        assert(parse_spec(t, after, known) == Ok::<Parsed, Failure>(
            Parsed { node: Node::Nothing, next: after + 1, fns: known },
        ));
        assert(parse_block_spec(t, after, known) == parse_block_spec(t, after + 1, known));
        assert(body.subrange(from, body.len() as int) =~= seq![statement] + body.subrange(
            from + 1,
            body.len() as int,
        ));
    } else {
        lemma_at(t, pos, all, 0);
        assert(body.subrange(from, body.len() as int) =~= Seq::<Node>::empty());
    }
}

/// The parser reads back a block.
proof fn lemma_braced(t: Seq<Lexeme>, pos: int, body: Seq<Node>, fns: Seq<Seq<char>>)
    requires
        are_statements(body, 0, fns),
        stands_at(t, pos, braced(body)),
    ensures
        parse_braced_spec(t, pos, fns) == Ok::<ParsedList, Failure>(
            ParsedList {
                nodes: body,
                next: pos + braced(body).len(),
                fns: known_after_list(body, 0, fns),
            },
        ),
    decreases body, 1nat,
{
    let open = seq![sign(Token::KwLBrace)];
    let inside = spelled_list(body, 0, Token::KwTerminator, Token::KwRBrace);
    lemma_split(t, pos, open, inside);
    lemma_at(t, pos, open, 0);
    lemma_body(t, pos + 1, body, 0, fns);
    assert(body.subrange(0, body.len() as int) =~= body);
}

/// The parser reads back a first binding.
proof fn lemma_let(t: Seq<Lexeme>, pos: int, name: Seq<char>, value: Node, fns: Seq<Seq<char>>)
    requires
        is_expression(value, fns),
        stands_at(t, pos, spelled(Node::Assign(AssignOp::Let, name, Box::new(value)))),
        pos + spelled(Node::Assign(AssignOp::Let, name, Box::new(value))).len() < t.len(),
        ends_atom(
            t[pos + spelled(Node::Assign(AssignOp::Let, name, Box::new(value))).len()].token,
        ),
    ensures
        parse_spec(t, pos, fns) == Ok::<Parsed, Failure>(
            Parsed {
                node: Node::Assign(AssignOp::Let, name, Box::new(value)),
                next: pos + spelled(Node::Assign(AssignOp::Let, name, Box::new(value))).len(),
                fns,
            },
        ),
    decreases Node::Assign(AssignOp::Let, name, Box::new(value)), 2nat,
{
    let head = seq![sign(Token::KwLet), ident(name), sign(Token::OpAssign)];
    lemma_split(t, pos, head, spelled(value));
    lemma_at(t, pos, head, 0);
    lemma_at(t, pos, head, 1);
    lemma_at(t, pos, head, 2);
    lemma_expression(t, pos + 3, value, fns);
}

/// The parser reads back a declaration.
proof fn lemma_declaration(
    t: Seq<Lexeme>,
    pos: int,
    name: Seq<char>,
    params: Seq<Seq<char>>,
    body: Seq<Node>,
    fns: Seq<Seq<char>>,
)
    requires
        are_statements(body, 0, fns.push(name)),
        stands_at(t, pos, spelled(Node::FunctionDecl(name, params, body))),
    ensures
        parse_spec(t, pos, fns) == Ok::<Parsed, Failure>(
            Parsed {
                node: Node::FunctionDecl(name, params, body),
                next: pos + spelled(Node::FunctionDecl(name, params, body)).len(),
                fns: fns.push(name),
            },
        ),
    decreases Node::FunctionDecl(name, params, body), 2nat,
{
    let head = seq![sign(Token::KwFn), ident(name), sign(Token::KwLParen)];
    let names = spelled_params(params, 0);
    lemma_split(t, pos, head, names + braced(body));
    lemma_at(t, pos, head, 0);
    lemma_at(t, pos, head, 1);
    lemma_at(t, pos, head, 2);
    lemma_split(t, pos + 3, names, braced(body));
    lemma_params(t, pos + 3, params, 0);
    assert(params.subrange(0, params.len() as int) =~= params);
    lemma_braced(t, pos + 3 + names.len(), body, fns.push(name));
}

/// The parser reads back a conditional.
proof fn lemma_conditional(
    t: Seq<Lexeme>,
    pos: int,
    cond: Node,
    body: Seq<Node>,
    has_else: bool,
    else_body: Seq<Node>,
    fns: Seq<Seq<char>>,
)
    requires
        is_statement(Node::IfStatement(Box::new(cond), body, has_else, else_body), fns),
        stands_at(t, pos, spelled(Node::IfStatement(Box::new(cond), body, has_else, else_body))),
        pos + spelled(Node::IfStatement(Box::new(cond), body, has_else, else_body)).len()
            < t.len(),
        t[pos + spelled(
            Node::IfStatement(Box::new(cond), body, has_else, else_body),
        ).len()].token == Token::KwTerminator,
    ensures
        parse_spec(t, pos, fns) == Ok::<Parsed, Failure>(
            Parsed {
                node: Node::IfStatement(Box::new(cond), body, has_else, else_body),
                next: pos + spelled(
                    Node::IfStatement(Box::new(cond), body, has_else, else_body),
                ).len(),
                fns: known_after(
                    Node::IfStatement(Box::new(cond), body, has_else, else_body),
                    fns,
                ),
            },
        ),
    decreases Node::IfStatement(Box::new(cond), body, has_else, else_body), 2nat,
{
    let node = Node::IfStatement(Box::new(cond), body, has_else, else_body);
    let end = pos + spelled(node).len();
    let head = seq![sign(Token::KwIf)];
    let other = if has_else {
        seq![sign(Token::KwElse)] + braced(else_body)
    } else {
        Seq::<Lexeme>::empty()
    };
    lemma_split(t, pos, head, spelled(cond) + (braced(body) + other));
    lemma_at(t, pos, head, 0);
    lemma_split(t, pos + 1, spelled(cond), braced(body) + other);
    let at_body = pos + 1 + spelled(cond).len();
    lemma_split(t, at_body, braced(body), other);
    lemma_at(t, at_body, braced(body), 0);
    lemma_expression(t, pos + 1, cond, fns);
    lemma_braced(t, at_body, body, fns);
    let at_else = at_body + braced(body).len();
    let known = known_after_list(body, 0, fns);
    if has_else {
        let word = seq![sign(Token::KwElse)];
        lemma_split(t, at_else, word, braced(else_body));
        lemma_at(t, at_else, word, 0);
        lemma_at(t, at_else + 1, braced(else_body), 0);
        lemma_braced(t, at_else + 1, else_body, known);
        assert(parse_else_spec(t, at_else, known) == Ok::<(bool, ParsedList), Failure>(
            (
                true,
                ParsedList {
                    nodes: else_body,
                    next: end,
                    fns: known_after_list(else_body, 0, known),
                },
            ),
        ));
    } else {
        assert(else_body =~= Seq::<Node>::empty());
        assert(parse_else_spec(t, at_else, known) == Ok::<(bool, ParsedList), Failure>(
            (false, ParsedList { nodes: Seq::empty(), next: at_else, fns: known }),
        ));
    }
}

/// The parser reads back a conditional loop.
proof fn lemma_conditional_loop(
    t: Seq<Lexeme>,
    pos: int,
    cond: Node,
    body: Seq<Node>,
    fns: Seq<Seq<char>>,
)
    requires
        is_statement(Node::ConditionalLoop(Box::new(cond), body), fns),
        stands_at(t, pos, spelled(Node::ConditionalLoop(Box::new(cond), body))),
    ensures
        parse_spec(t, pos, fns) == Ok::<Parsed, Failure>(
            Parsed {
                node: Node::ConditionalLoop(Box::new(cond), body),
                next: pos + spelled(Node::ConditionalLoop(Box::new(cond), body)).len(),
                fns: known_after(Node::ConditionalLoop(Box::new(cond), body), fns),
            },
        ),
    decreases Node::ConditionalLoop(Box::new(cond), body), 2nat,
{
    let head = seq![sign(Token::KwLoop), sign(Token::KwWhile)];
    lemma_split(t, pos, head, spelled(cond) + braced(body));
    lemma_at(t, pos, head, 0);
    lemma_at(t, pos, head, 1);
    lemma_split(t, pos + 2, spelled(cond), braced(body));
    let at_body = pos + 2 + spelled(cond).len();
    lemma_at(t, at_body, braced(body), 0);
    lemma_expression(t, pos + 2, cond, fns);
    lemma_braced(t, at_body, body, fns);
}

/// The parser reads back an incrementing loop.
proof fn lemma_incrementing_loop(
    t: Seq<Lexeme>,
    pos: int,
    name: Seq<char>,
    lower: Node,
    upper: Node,
    body: Seq<Node>,
    fns: Seq<Seq<char>>,
)
    requires
        is_statement(Node::IncrementingLoop(name, Box::new(lower), Box::new(upper), body), fns),
        stands_at(
            t,
            pos,
            spelled(Node::IncrementingLoop(name, Box::new(lower), Box::new(upper), body)),
        ),
    ensures
        parse_spec(t, pos, fns) == Ok::<Parsed, Failure>(
            Parsed {
                node: Node::IncrementingLoop(name, Box::new(lower), Box::new(upper), body),
                next: pos + spelled(
                    Node::IncrementingLoop(name, Box::new(lower), Box::new(upper), body),
                ).len(),
                fns: known_after(
                    Node::IncrementingLoop(name, Box::new(lower), Box::new(upper), body),
                    fns,
                ),
            },
        ),
    decreases Node::IncrementingLoop(name, Box::new(lower), Box::new(upper), body), 2nat,
{
    let head = seq![sign(Token::KwLoop), ident(name), sign(Token::KwIn)];
    let word = seq![sign(Token::KwTo)];
    lemma_split(t, pos, head, spelled(lower) + (word + (spelled(upper) + braced(body))));
    lemma_at(t, pos, head, 0);
    lemma_at(t, pos, head, 1);
    lemma_at(t, pos, head, 2);
    lemma_split(t, pos + 3, spelled(lower), word + (spelled(upper) + braced(body)));
    let at_to = pos + 3 + spelled(lower).len();
    lemma_split(t, at_to, word, spelled(upper) + braced(body));
    lemma_at(t, at_to, word, 0);
    lemma_split(t, at_to + 1, spelled(upper), braced(body));
    let at_body = at_to + 1 + spelled(upper).len();
    lemma_at(t, at_body, braced(body), 0);
    lemma_expression(t, pos + 3, lower, fns);
    lemma_expression(t, at_to + 1, upper, fns);
    lemma_braced(t, at_body, body, fns);
}

/// The parser reads back a statement that is an expression.
proof fn lemma_expression_statement(t: Seq<Lexeme>, pos: int, node: Node, fns: Seq<Seq<char>>)
    requires
        is_expression(node, fns),
        stands_at(t, pos, spelled(node)),
        pos + spelled(node).len() < t.len(),
        ends_atom(t[pos + spelled(node).len()].token),
    ensures
        parse_spec(t, pos, fns) == Ok::<Parsed, Failure>(
            Parsed { node, next: pos + spelled(node).len(), fns },
        ),
    decreases node, 2nat,
{
    lemma_first(node, fns);
    lemma_at(t, pos, spelled(node), 0);
    lemma_expression(t, pos, node, fns);
}

/// The parser reads back a statement.
proof fn lemma_statement(t: Seq<Lexeme>, pos: int, node: Node, fns: Seq<Seq<char>>)
    requires
        is_statement(node, fns),
        stands_at(t, pos, spelled(node)),
        pos + spelled(node).len() < t.len(),
        t[pos + spelled(node).len()].token == Token::KwTerminator,
    ensures
        parse_spec(t, pos, fns) == Ok::<Parsed, Failure>(
            Parsed { node, next: pos + spelled(node).len(), fns: known_after(node, fns) },
        ),
    decreases node, 3nat,
{
    match node {
        Node::Assign(op, name, value) => {
            if op == AssignOp::Let {
                lemma_let(t, pos, name, *value, fns);
            } else {
                lemma_expression_statement(t, pos, node, fns);
            }
        },
        Node::FunctionDecl(name, params, body) => {
            lemma_declaration(t, pos, name, params, body, fns);
        },
        Node::IfStatement(cond, body, has_else, else_body) => {
            lemma_conditional(t, pos, *cond, body, has_else, else_body, fns);
        },
        Node::ConditionalLoop(cond, body) => {
            lemma_conditional_loop(t, pos, *cond, body, fns);
        },
        Node::IncrementingLoop(name, lower, upper, body) => {
            lemma_incrementing_loop(t, pos, name, *lower, *upper, body, fns);
        },
        _ => {
            lemma_expression_statement(t, pos, node, fns);
        },
    }
}

/// Parsing reads back an expression: where the tokens that spell an
/// expression stand, followed by a token that ends an expression, the
/// parser reads that expression and stops after its last token.
pub proof fn law_expression_reads_back(
    t: Seq<Lexeme>,
    pos: int,
    node: Node,
    fns: Seq<Seq<char>>,
)
    requires
        is_expression(node, fns),
        stands_at(t, pos, spelled(node)),
        pos + spelled(node).len() < t.len(),
        ends_atom(t[pos + spelled(node).len()].token),
    ensures
        parse_expr_spec(t, pos, fns) == Ok::<Parsed, Failure>(
            Parsed { node, next: pos + spelled(node).len(), fns },
        ),
{
    lemma_expression(t, pos, node, fns);
}

/// Parsing reads back a statement: where the tokens that spell a statement
/// stand, followed by `;`, the parser reads that statement, stops after its
/// last token and knows the functions that it declared.
pub proof fn law_statement_reads_back(t: Seq<Lexeme>, pos: int, node: Node, fns: Seq<Seq<char>>)
    requires
        is_statement(node, fns),
        stands_at(t, pos, spelled(node)),
        pos + spelled(node).len() < t.len(),
        t[pos + spelled(node).len()].token == Token::KwTerminator,
    ensures
        parse_spec(t, pos, fns) == Ok::<Parsed, Failure>(
            Parsed { node, next: pos + spelled(node).len(), fns: known_after(node, fns) },
        ),
{
    lemma_statement(t, pos, node, fns);
}

/// Parsing reads back a block: where the tokens that spell a block stand,
/// the parser reads its statements, none left out and none added.
pub proof fn law_block_reads_back(t: Seq<Lexeme>, pos: int, body: Seq<Node>, fns: Seq<Seq<char>>)
    requires
        are_statements(body, 0, fns),
        stands_at(t, pos, braced(body)),
    ensures
        parse_braced_spec(t, pos, fns) == Ok::<ParsedList, Failure>(
            ParsedList {
                nodes: body,
                next: pos + braced(body).len(),
                fns: known_after_list(body, 0, fns),
            },
        ),
{
    lemma_braced(t, pos, body, fns);
}


/// The parser reads back the statements of a program.
proof fn lemma_program(t: Seq<Lexeme>, pos: int, nodes: Seq<Node>, from: int, fns: Seq<Seq<char>>)
    requires
        are_statements(nodes, from, fns),
        0 <= from <= nodes.len(),
        stands_at(t, pos, spelled_program(nodes, from)),
        pos + spelled_program(nodes, from).len() == t.len(),
    ensures
        parse_rest_spec(t, pos, fns) == Ok::<Seq<Node>, Failure>(separated(nodes, from)),
    decreases nodes.len() - from,
{
    if from < nodes.len() {
        let statement = nodes[from];
        let rest = spelled_program(nodes, from + 1);
        let end = seq![sign(Token::KwTerminator)];
        lemma_split(t, pos, spelled(statement), end + rest);
        let after = pos + spelled(statement).len();
        lemma_split(t, after, end, rest);
        lemma_at(t, after, end, 0);
        lemma_first(statement, fns);
        lemma_at(t, pos, spelled(statement), 0);
        lemma_statement(t, pos, statement, fns);
        let known = known_after(statement, fns);
        lemma_program(t, after + 1, nodes, from + 1, known);
        assert(parse_spec(t, after, known) == Ok::<Parsed, Failure>(
            Parsed { node: Node::Nothing, next: after + 1, fns: known },
        ));
        let tail = separated(nodes, from + 1);
        assert(parse_rest_spec(t, after, known) == Ok::<Seq<Node>, Failure>(
            seq![Node::Nothing] + tail,
        ));
        assert(seq![statement] + (seq![Node::Nothing] + tail) =~= separated(nodes, from));
    }
}

/// Parsing reads back a program: the tokens that spell statements, each
/// followed by `;`, parse to those statements, each followed by the
/// statement that is nothing.
pub proof fn law_program_reads_back(t: Seq<Lexeme>, nodes: Seq<Node>)
    requires
        are_statements(nodes, 0, builtin_names()),
        t == spelled_program(nodes, 0),
    ensures
        parse_program_spec(t) == Ok::<Seq<Node>, Failure>(separated(nodes, 0)),
{
    assert(t.subrange(0, t.len() as int) =~= t);
    lemma_program(t, 0, nodes, 0, builtin_names());
}


/// An index that ends a run as `lemma_run_end` says is the one that
/// `run_end` finds.
proof fn lemma_run_is(s: Seq<char>, from: int, k: CharClass, at: int)
    requires
        0 <= from <= at <= s.len(),
        forall|i: int| from <= i < at ==> in_class(k, #[trigger] s[i]),
        at < s.len() ==> !in_class(k, s[at]),
    ensures
        run_end(s, from, k) == at,
    decreases at - from,
{
    if from < at {
        lemma_run_is(s, from + 1, k, at);
    }
}

/// A run in a text that stands after another text ends where it ends in
/// the text alone.
proof fn lemma_run_shift(pre: Seq<char>, s: Seq<char>, from: int, k: CharClass)
    requires
        0 <= from <= s.len(),
    ensures
        run_end(pre + s, pre.len() + from, k) == pre.len() + run_end(s, from, k),
{
    lemma_run_end(s, from, k);
    let end = run_end(s, from, k);
    assert forall|i: int| pre.len() + from <= i < pre.len() + end implies in_class(
        k,
        #[trigger] (pre + s)[i],
    ) by {
        assert((pre + s)[i] == s[i - pre.len()]);
    }
    if end < s.len() {
        assert((pre + s)[pre.len() + end] == s[end]);
    }
    lemma_run_is(pre + s, pre.len() + from, k, pre.len() + end);
}

/// A token in a text that stands after another text is the token in the
/// text alone.
proof fn lemma_lexeme_shift(pre: Seq<char>, s: Seq<char>, at: int)
    requires
        0 <= at < s.len(),
    ensures
        lexeme_at(pre + s, pre.len() + at) == (match lexeme_at(s, at) {
            Some((token, end)) => Some((token, pre.len() + end)),
            None => None,
        }),
{
    let whole = pre + s;
    let here = pre.len() + at;
    assert(whole[here] == s[at]);
    lemma_run_shift(pre, s, at, CharClass::Letter);
    lemma_run_shift(pre, s, at, CharClass::Digit);
    lemma_run_shift(pre, s, at + 1, CharClass::Quoted);
    lemma_run_end(s, at, CharClass::Letter);
    lemma_run_end(s, at, CharClass::Digit);
    let letters = run_end(s, at, CharClass::Letter);
    assert(whole.subrange(here, pre.len() + letters) =~= s.subrange(at, letters));
    let digits = run_end(s, at, CharClass::Digit);
    if digits + 1 < s.len() {
        assert(whole[pre.len() + digits] == s[digits]);
        assert(whole[pre.len() + digits + 1] == s[digits + 1]);
        lemma_run_shift(pre, s, digits + 1, CharClass::Digit);
    }
    if at + 1 < s.len() {
        assert(whole[here + 1] == s[at + 1]);
    }
}

/// The tokens of a text that stands after another text are the tokens of
/// the text alone.
proof fn lemma_scan_shift(pre: Seq<char>, s: Seq<char>, from: int)
    requires
        0 <= from <= s.len(),
        scan_from(s, from) is Ok,
    ensures
        scan_from(pre + s, pre.len() + from) == scan_from(s, from),
    decreases s.len() - from,
{
    let whole = pre + s;
    if from < s.len() {
        assert(whole[pre.len() + from] == s[from]);
        if is_space(s[from]) {
            lemma_scan_shift(pre, s, from + 1);
        } else {
            lemma_lexeme_shift(pre, s, from);
            match lexeme_at(s, from) {
                Some((token, end)) => {
                    if from < end <= s.len() {
                        lemma_scan_shift(pre, s, end);
                        assert(whole.subrange(pre.len() + from, pre.len() + end) =~= s.subrange(
                            from,
                            end,
                        ));
                    }
                },
                None => {},
            }
        }
    }
}

/// A token that scans alone is the first token of its text followed by a
/// space and anything.
proof fn lemma_scans_in_front(l: Lexeme, tail: Seq<char>)
    requires
        scans_alone(l),
    ensures
        lexeme_at(l.text + (seq![' '] + tail), 0) == Some((l.token, l.text.len() as int)),
        !is_space(l.text[0]),
{
    let text = l.text;
    let whole = text + (seq![' '] + tail);
    let n = text.len() as int;
    assert(whole[n] == ' ');
    assert forall|i: int| 0 <= i < n implies whole[i] == text[i] by {}
    lemma_run_end(text, 0, CharClass::Letter);
    lemma_run_end(text, 0, CharClass::Digit);
    lemma_run_end(text, 1, CharClass::Quoted);
    let c = text[0];
    if in_class(CharClass::Letter, c) {
        lemma_run_is(whole, 0, CharClass::Letter, n);
        assert(whole.subrange(0, n) =~= text.subrange(0, n));
    } else if in_class(CharClass::Digit, c) {
        let first = run_end(text, 0, CharClass::Digit);
        lemma_run_is(whole, 0, CharClass::Digit, first);
        if first + 1 < n && text[first] == '.' && in_class(CharClass::Digit, text[first + 1]) {
            lemma_run_end(text, first + 1, CharClass::Digit);
            lemma_run_is(whole, first + 1, CharClass::Digit, n);
        }
    } else if c == '"' {
        let end = run_end(text, 1, CharClass::Quoted);
        lemma_run_is(whole, 1, CharClass::Quoted, end);
    } else {
    }
}

/// A token that scans alone, a space and a text that scans to `rest` scan
/// to the token and `rest`.
proof fn lemma_scan_one(l: Lexeme, tail: Seq<char>, rest: Seq<Lexeme>)
    requires
        scans_alone(l),
        scan_from(tail, 0) == Ok::<Seq<Lexeme>, int>(rest),
    ensures
        scan_from(l.text + (seq![' '] + tail), 0) == Ok::<Seq<Lexeme>, int>(seq![l] + rest),
{
    let text = l.text + (seq![' '] + tail);
    let n = l.text.len() as int;
    let pre = l.text + seq![' '];
    lemma_scans_in_front(l, tail);
    assert(text[0] == l.text[0]);
    assert(text[n] == ' ');
    assert(text =~= pre + tail);
    lemma_scan_shift(pre, tail, 0);
    assert(scan_from(text, n + 1) == Ok::<Seq<Lexeme>, int>(rest));
    assert(is_space(text[n]));
    assert(scan_from(text, n) == scan_from(text, n + 1));
    assert(text.subrange(0, n) =~= l.text);
    assert(lexeme_at(text, 0) == Some((l.token, n)));
    assert(!is_space(text[0]));
    assert(scan_from(text, 0) == Ok::<Seq<Lexeme>, int>(
        seq![Lexeme { token: l.token, text: text.subrange(0, n) }] + rest,
    ));
}

/// The scanner reads back the tokens from index `from` on.
proof fn lemma_scan_reads_back(tokens: Seq<Lexeme>, from: int)
    requires
        0 <= from <= tokens.len(),
        forall|i: int| 0 <= i < tokens.len() ==> scans_alone(#[trigger] tokens[i]),
    ensures
        scan_from(written(tokens, from), 0) == Ok::<Seq<Lexeme>, int>(
            tokens.subrange(from, tokens.len() as int),
        ),
    decreases tokens.len() - from,
{
    if from < tokens.len() {
        lemma_scan_reads_back(tokens, from + 1);
        lemma_scan_one(
            tokens[from],
            written(tokens, from + 1),
            tokens.subrange(from + 1, tokens.len() as int),
        );
        assert(tokens.subrange(from, tokens.len() as int) =~= seq![tokens[from]]
            + tokens.subrange(from + 1, tokens.len() as int));
    } else {
        assert(tokens.subrange(from, tokens.len() as int) =~= Seq::<Lexeme>::empty());
    }
}

/// Scanning reads back what was written: if each token scans alone, then
/// the text made of the tokens' texts, each followed by a space, scans to
/// these very tokens.
pub proof fn law_scan_reads_back(tokens: Seq<Lexeme>)
    requires
        forall|i: int| 0 <= i < tokens.len() ==> scans_alone(#[trigger] tokens[i]),
    ensures
        scan_spec(written(tokens, 0)) == Ok::<Seq<Lexeme>, int>(tokens),
{
    lemma_scan_reads_back(tokens, 0);
    assert(tokens.subrange(0, tokens.len() as int) =~= tokens);
}


/// Whether each token of `tokens` scans alone.
pub open spec fn all_scan_alone(tokens: Seq<Lexeme>) -> bool {
    forall|i: int| 0 <= i < tokens.len() ==> scans_alone(#[trigger] tokens[i])
}

/// Whether a token of this kind is spelled in one way only: a keyword, a
/// punctuation mark or an operator.
pub open spec fn is_sign(token: Token) -> bool {
    match token {
        Token::Text | Token::Identifier | Token::Number | Token::DecimalNumber => false,
        _ => true,
    }
}

/// A word of letters, scanned alone, is one token of the word's kind.
proof fn lemma_word_scans_alone(w: Seq<char>)
    requires
        w.len() > 0,
        forall|i: int| 0 <= i < w.len() ==> in_class(CharClass::Letter, #[trigger] w[i]),
    ensures
        lexeme_at(w, 0) == Some((word_kind(w), w.len() as int)),
{
    lemma_run_is(w, 0, CharClass::Letter, w.len() as int);
    assert(w.subrange(0, w.len() as int) =~= w);
}

/// A keyword scans alone.
proof fn lemma_keyword_scans_alone(token: Token)
    requires
        match token {
            Token::KwLet | Token::KwFn | Token::KwIf | Token::KwElse | Token::KwLoop | Token::KwBreak => true,
            Token::KwWhile | Token::KwTrue | Token::KwFalse | Token::KwNone | Token::KwIn | Token::KwTo => true,
            _ => false,
        },
    ensures
        scans_alone(sign(token)),
{
    reveal_strlit("let");
    reveal_strlit("fn");
    reveal_strlit("if");
    reveal_strlit("else");
    reveal_strlit("loop");
    reveal_strlit("break");
    reveal_strlit("while");
    reveal_strlit("true");
    reveal_strlit("false");
    reveal_strlit("none");
    reveal_strlit("in");
    reveal_strlit("to");
    lemma_word_scans_alone(spelling(token));
}

/// A keyword, a punctuation mark or an operator scans alone.
proof fn lemma_sign_scans_alone(token: Token)
    requires
        is_sign(token),
    ensures
        scans_alone(sign(token)),
{
    match token {
        Token::KwLet | Token::KwFn | Token::KwIf | Token::KwElse | Token::KwLoop | Token::KwBreak => {
            lemma_keyword_scans_alone(token);
        },
        Token::KwWhile | Token::KwTrue | Token::KwFalse | Token::KwNone | Token::KwIn | Token::KwTo => {
            lemma_keyword_scans_alone(token);
        },
        _ => {},
    }
}

/// Two lists of tokens that scan alone, joined, are one.
proof fn lemma_join(a: Seq<Lexeme>, b: Seq<Lexeme>)
    requires
        all_scan_alone(a),
        all_scan_alone(b),
    ensures
        all_scan_alone(a + b),
{
    assert forall|i: int| 0 <= i < (a + b).len() implies scans_alone(#[trigger] (a + b)[i]) by {
        if i < a.len() {
            assert((a + b)[i] == a[i]);
        } else {
            assert((a + b)[i] == b[i - a.len()]);
        }
    }
}

/// The token of an atom scans alone if its name, numeral or text does.
proof fn lemma_atom_scans_alone(node: Node)
    requires
        node is Number || node is Text || node is Variable ==> scans_alone(atom_lexeme(node)),
    ensures
        scans_alone(atom_lexeme(node)),
{
    lemma_sign_scans_alone(Token::KwTrue);
    lemma_sign_scans_alone(Token::KwFalse);
    lemma_sign_scans_alone(Token::KwNone);
}

/// Two tokens that scan alone before a list of such tokens make such a list.
proof fn lemma_two(a: Lexeme, b: Lexeme, rest: Seq<Lexeme>)
    requires
        scans_alone(a),
        scans_alone(b),
        all_scan_alone(rest),
    ensures
        all_scan_alone(seq![a, b] + rest),
{
    lemma_join(seq![a, b], rest);
}

/// Three tokens that scan alone before a list of such tokens make such a
/// list.
proof fn lemma_three(a: Lexeme, b: Lexeme, c: Lexeme, rest: Seq<Lexeme>)
    requires
        scans_alone(a),
        scans_alone(b),
        scans_alone(c),
        all_scan_alone(rest),
    ensures
        all_scan_alone(seq![a, b, c] + rest),
{
    lemma_join(seq![a, b, c], rest);
}

/// A token that scans alone before a list of such tokens makes such a list.
proof fn lemma_one_more(a: Lexeme, rest: Seq<Lexeme>)
    requires
        scans_alone(a),
        all_scan_alone(rest),
    ensures
        all_scan_alone(seq![a] + rest),
{
    lemma_join(seq![a], rest);
}

/// Each token that spells an operation or a write scans alone.
proof fn lemma_chain_scans_alone(node: Node)
    requires
        can_be_written(node),
        node is Binary || node is Assign,
    ensures
        all_scan_alone(spelled(node)),
    decreases node, 0nat,
{
    match node {
        Node::Binary(op, lhs, rhs) => {
            lemma_spelled_scans_alone(*rhs);
            lemma_atom_scans_alone(*lhs);
            lemma_sign_scans_alone(op_token(op));
            lemma_two(atom_lexeme(*lhs), sign(op_token(op)), spelled(*rhs));
        },
        Node::Assign(op, name, value) => {
            lemma_spelled_scans_alone(*value);
            if op == AssignOp::Let {
                lemma_sign_scans_alone(Token::KwLet);
                lemma_sign_scans_alone(Token::OpAssign);
                lemma_three(
                    sign(Token::KwLet),
                    ident(name),
                    sign(Token::OpAssign),
                    spelled(*value),
                );
            } else {
                lemma_sign_scans_alone(assign_token(op));
                lemma_two(ident(name), sign(assign_token(op)), spelled(*value));
            }
        },
        _ => {},
    }
}

/// Each token that spells a call or a declaration scans alone.
proof fn lemma_function_scans_alone(node: Node)
    requires
        can_be_written(node),
        node is FunctionCall || node is FunctionDecl,
    ensures
        all_scan_alone(spelled(node)),
    decreases node, 0nat,
{
    match node {
        Node::FunctionCall(name, args) => {
            lemma_sign_scans_alone(Token::KwLParen);
            lemma_sign_scans_alone(Token::KwComma);
            lemma_sign_scans_alone(Token::KwRParen);
            lemma_list_scans_alone(args, 0, Token::KwComma, Token::KwRParen);
            lemma_two(
                ident(name),
                sign(Token::KwLParen),
                spelled_list(args, 0, Token::KwComma, Token::KwRParen),
            );
        },
        Node::FunctionDecl(name, params, body) => {
            lemma_sign_scans_alone(Token::KwFn);
            lemma_sign_scans_alone(Token::KwLParen);
            lemma_params_scan_alone(params, 0);
            lemma_braced_scans_alone(body);
            lemma_join(spelled_params(params, 0), braced(body));
            lemma_three(
                sign(Token::KwFn),
                ident(name),
                sign(Token::KwLParen),
                spelled_params(params, 0) + braced(body),
            );
        },
        _ => {},
    }
}

/// Each token that spells a conditional scans alone.
proof fn lemma_conditional_scans_alone(node: Node)
    requires
        can_be_written(node),
        node is IfStatement,
    ensures
        all_scan_alone(spelled(node)),
    decreases node, 0nat,
{
    match node {
        Node::IfStatement(cond, body, has_else, else_body) => {
            lemma_sign_scans_alone(Token::KwIf);
            lemma_sign_scans_alone(Token::KwElse);
            lemma_spelled_scans_alone(*cond);
            lemma_braced_scans_alone(body);
            let other = if has_else {
                seq![sign(Token::KwElse)] + braced(else_body)
            } else {
                Seq::<Lexeme>::empty()
            };
            if has_else {
                lemma_braced_scans_alone(else_body);
                lemma_one_more(sign(Token::KwElse), braced(else_body));
            }
            lemma_join(braced(body), other);
            lemma_join(spelled(*cond), braced(body) + other);
            lemma_one_more(sign(Token::KwIf), spelled(*cond) + (braced(body) + other));
        },
        _ => {},
    }
}

/// Each token that spells a loop scans alone.
proof fn lemma_loop_scans_alone(node: Node)
    requires
        can_be_written(node),
        node is ConditionalLoop || node is IncrementingLoop,
    ensures
        all_scan_alone(spelled(node)),
    decreases node, 0nat,
{
    match node {
        Node::ConditionalLoop(cond, body) => {
            lemma_sign_scans_alone(Token::KwLoop);
            lemma_sign_scans_alone(Token::KwWhile);
            lemma_spelled_scans_alone(*cond);
            lemma_braced_scans_alone(body);
            lemma_join(spelled(*cond), braced(body));
            lemma_two(sign(Token::KwLoop), sign(Token::KwWhile), spelled(*cond) + braced(body));
        },
        Node::IncrementingLoop(name, lower, upper, body) => {
            lemma_sign_scans_alone(Token::KwLoop);
            lemma_sign_scans_alone(Token::KwIn);
            lemma_sign_scans_alone(Token::KwTo);
            lemma_spelled_scans_alone(*lower);
            lemma_spelled_scans_alone(*upper);
            lemma_braced_scans_alone(body);
            lemma_join(spelled(*upper), braced(body));
            lemma_one_more(sign(Token::KwTo), spelled(*upper) + braced(body));
            lemma_join(
                spelled(*lower),
                seq![sign(Token::KwTo)] + (spelled(*upper) + braced(body)),
            );
            lemma_three(
                sign(Token::KwLoop),
                ident(name),
                sign(Token::KwIn),
                spelled(*lower) + (seq![sign(Token::KwTo)] + (spelled(*upper) + braced(body))),
            );
        },
        _ => {},
    }
}

/// Each token that spells a node scans alone.
proof fn lemma_spelled_scans_alone(node: Node)
    requires
        can_be_written(node),
    ensures
        all_scan_alone(spelled(node)),
    decreases node, 1nat,
{
    match node {
        Node::Binary(_, _, _) | Node::Assign(_, _, _) => {
            lemma_chain_scans_alone(node);
        },
        Node::FunctionCall(_, _) | Node::FunctionDecl(_, _, _) => {
            lemma_function_scans_alone(node);
        },
        Node::IfStatement(_, _, _, _) => {
            lemma_conditional_scans_alone(node);
        },
        Node::ConditionalLoop(_, _) | Node::IncrementingLoop(_, _, _, _) => {
            lemma_loop_scans_alone(node);
        },
        _ => {
            lemma_atom_scans_alone(node);
        },
    }
}

/// Each token that spells the parameters scans alone.
proof fn lemma_params_scan_alone(names: Seq<Seq<char>>, from: int)
    requires
        0 <= from,
        forall|i: int| 0 <= i < names.len() ==> scans_alone(ident(#[trigger] names[i])),
    ensures
        all_scan_alone(spelled_params(names, from)),
    decreases names.len() - from,
{
    lemma_sign_scans_alone(Token::KwRParen);
    if from < names.len() {
        lemma_params_scan_alone(names, from + 1);
        lemma_one_more(ident(names[from]), spelled_params(names, from + 1));
    }
}

/// Each token that spells a list of nodes scans alone.
proof fn lemma_list_scans_alone(nodes: Seq<Node>, from: int, after: Token, close: Token)
    requires
        0 <= from,
        can_all_be_written(nodes, from),
        scans_alone(sign(after)),
        scans_alone(sign(close)),
    ensures
        all_scan_alone(spelled_list(nodes, from, after, close)),
    decreases nodes, 0nat, nodes.len() - from,
{
    if from < nodes.len() {
        lemma_spelled_scans_alone(nodes[from]);
        lemma_list_scans_alone(nodes, from + 1, after, close);
        let rest = spelled_list(nodes, from + 1, after, close);
        lemma_one_more(sign(after), rest);
        lemma_join(spelled(nodes[from]), seq![sign(after)] + rest);
    }
}

/// Each token that spells a block scans alone.
proof fn lemma_braced_scans_alone(body: Seq<Node>)
    requires
        can_all_be_written(body, 0),
    ensures
        all_scan_alone(braced(body)),
    decreases body, 1nat,
{
    lemma_sign_scans_alone(Token::KwLBrace);
    lemma_sign_scans_alone(Token::KwTerminator);
    lemma_sign_scans_alone(Token::KwRBrace);
    lemma_list_scans_alone(body, 0, Token::KwTerminator, Token::KwRBrace);
    lemma_one_more(
        sign(Token::KwLBrace),
        spelled_list(body, 0, Token::KwTerminator, Token::KwRBrace),
    );
}

/// Each token that spells a program scans alone.
proof fn lemma_program_scans_alone(nodes: Seq<Node>, from: int)
    requires
        0 <= from,
        can_all_be_written(nodes, from),
    ensures
        all_scan_alone(spelled_program(nodes, from)),
    decreases nodes.len() - from,
{
    lemma_sign_scans_alone(Token::KwTerminator);
    if from < nodes.len() {
        lemma_spelled_scans_alone(nodes[from]);
        lemma_program_scans_alone(nodes, from + 1);
        let rest = spelled_program(nodes, from + 1);
        lemma_one_more(sign(Token::KwTerminator), rest);
        lemma_join(spelled(nodes[from]), seq![sign(Token::KwTerminator)] + rest);
    }
}

/// What is written can be read. Let `nodes` be statements that can be
/// written as a program, with names, numerals and texts that can be written.
/// Then the text that writes them, each token followed by a space and each
/// statement by `;`, is a program, and reading it gives these statements
/// back, each followed by the statement that is nothing.
pub proof fn law_written_program_reads_back(nodes: Seq<Node>)
    requires
        are_statements(nodes, 0, builtin_names()),
        can_all_be_written(nodes, 0),
    ensures
        program_of(written(spelled_program(nodes, 0), 0)) == Ok::<Seq<Node>, SyntaxFailure>(
            separated(nodes, 0),
        ),
{
    let tokens = spelled_program(nodes, 0);
    lemma_program_scans_alone(nodes, 0);
    law_scan_reads_back(tokens);
    law_program_reads_back(tokens, nodes);
}

} // verus!
