//! How a syntax tree is written: the tokens that spell a node. Parsing the
//! spelling of a tree gives the tree back.

use vstd::prelude::*;
use crate::ast::{AssignOp, BinaryOp, Node};
use crate::scanner::lexeme_at;
use crate::token::{Lexeme, Token};

verus! {

/// How a keyword, a punctuation mark or an operator is spelled. The other
/// kinds of token have texts of their own.
pub open spec fn spelling(token: Token) -> Seq<char> {
    match token {
        Token::KwLet => "let"@,
        Token::KwFn => "fn"@,
        Token::KwIf => "if"@,
        Token::KwElse => "else"@,
        Token::KwLoop => "loop"@,
        Token::KwBreak => "break"@,
        Token::KwWhile => "while"@,
        Token::KwTrue => "true"@,
        Token::KwFalse => "false"@,
        Token::KwNone => "none"@,
        Token::KwIn => "in"@,
        Token::KwTo => "to"@,
        Token::KwTerminator => seq![';'],
        Token::KwComma => seq![','],
        Token::KwLParen => seq!['('],
        Token::KwRParen => seq![')'],
        Token::KwLBrace => seq!['{'],
        Token::KwRBrace => seq!['}'],
        Token::OpAddEq => seq!['+', '='],
        Token::OpSubEq => seq!['-', '='],
        Token::OpAdd => seq!['+'],
        Token::OpSub => seq!['-'],
        Token::OpMul => seq!['*'],
        Token::OpDiv => seq!['/'],
        Token::OpEqCheck => seq!['=', '='],
        Token::OpAssign => seq!['='],
        Token::OpNeqCheck => seq!['!', '='],
        Token::OpGtCheck => seq!['>'],
        Token::OpLtCheck => seq!['<'],
        Token::OpGteCheck => seq!['>', '='],
        Token::OpLteCheck => seq!['<', '='],
        Token::OpModulo => seq!['%'],
        Token::Text | Token::Identifier | Token::Number | Token::DecimalNumber => Seq::empty(),
    }
}

/// The keyword, punctuation mark or operator of kind `token`.
pub open spec fn sign(token: Token) -> Lexeme {
    Lexeme { token, text: spelling(token) }
}

/// The kind of the token that the numeral `n` is: a decimal number if it
/// scans as one, else a number.
pub open spec fn numeral_kind(n: Seq<char>) -> Token {
    match lexeme_at(n, 0) {
        Some((Token::DecimalNumber, _)) => Token::DecimalNumber,
        _ => Token::Number,
    }
}

/// The identifier `name`.
pub open spec fn ident(name: Seq<char>) -> Lexeme {
    Lexeme { token: Token::Identifier, text: name }
}

/// The token of an operation.
pub open spec fn op_token(op: BinaryOp) -> Token {
    match op {
        BinaryOp::Add => Token::OpAdd,
        BinaryOp::Sub => Token::OpSub,
        BinaryOp::Mul => Token::OpMul,
        BinaryOp::Div => Token::OpDiv,
        BinaryOp::Modulo => Token::OpModulo,
        BinaryOp::EqCheck => Token::OpEqCheck,
        BinaryOp::NeqCheck => Token::OpNeqCheck,
        BinaryOp::GtCheck => Token::OpGtCheck,
        BinaryOp::LtCheck => Token::OpLtCheck,
        BinaryOp::GteCheck => Token::OpGteCheck,
        BinaryOp::LteCheck => Token::OpLteCheck,
    }
}

/// The token of a write to a variable that exists.
pub open spec fn assign_token(op: AssignOp) -> Token {
    match op {
        AssignOp::AddEq => Token::OpAddEq,
        AssignOp::SubEq => Token::OpSubEq,
        _ => Token::OpAssign,
    }
}

/// Whether `node` is an atom where the names in `fns` are functions: a
/// literal, or a variable whose name is not a function's.
pub open spec fn is_atom(node: Node, fns: Seq<Seq<char>>) -> bool {
    match node {
        Node::Number(_) | Node::Text(_) | Node::Boolean(_) => true,
        Node::Variable(name) => !fns.contains(name),
        _ => false,
    }
}

/// The token that spells an atom.
pub open spec fn atom_lexeme(node: Node) -> Lexeme {
    match node {
        Node::Number(n) => Lexeme { token: numeral_kind(n), text: n },
        Node::Text(t) => Lexeme { token: Token::Text, text: seq!['"'] + t + seq!['"'] },
        Node::Boolean(b) => sign(
            if b {
                Token::KwTrue
            } else {
                Token::KwFalse
            },
        ),
        Node::Variable(name) => ident(name),
        _ => sign(Token::KwNone),
    }
}

/// The tokens that spell the parameter names from index `from` on, and the
/// closing parenthesis.
pub open spec fn spelled_params(names: Seq<Seq<char>>, from: int) -> Seq<Lexeme>
    decreases names.len() - from,
{
    if 0 <= from < names.len() {
        seq![ident(names[from])] + spelled_params(names, from + 1)
    } else {
        seq![sign(Token::KwRParen)]
    }
}

/// The tokens that spell `node`.
/// - Nothing is `none`.
/// - An operation is its left operand, the operator and its right operand.
/// - A write is the name, the operator and the value, after `let` where it
///   is the first binding.
/// - A call is the name and, in parentheses, the arguments, each followed by
///   a comma.
/// - A declaration is `fn`, the name, the parameters in parentheses and the
///   body in braces.
/// - A conditional is `if`, the condition, the body in braces and, where it
///   has one, `else` and its body in braces.
/// - A loop is `loop`, then `while` and the condition, or the counter, `in`,
///   the lower bound, `to` and the upper bound, then the body in braces.
/// In a body every statement is followed by `;`.
pub open spec fn spelled(node: Node) -> Seq<Lexeme>
    decreases node, 1nat,
{
    match node {
        Node::Nothing | Node::LoopBreak => seq![sign(Token::KwNone)],
        Node::Number(_) | Node::Text(_) | Node::Boolean(_) | Node::Variable(_) => seq![
            atom_lexeme(node),
        ],
        Node::Binary(op, lhs, rhs) => seq![atom_lexeme(*lhs), sign(op_token(op))] + spelled(*rhs),
        Node::Assign(op, name, value) => {
            if op == AssignOp::Let {
                seq![sign(Token::KwLet), ident(name), sign(Token::OpAssign)] + spelled(*value)
            } else {
                seq![ident(name), sign(assign_token(op))] + spelled(*value)
            }
        },
        Node::FunctionCall(name, args) => seq![ident(name), sign(Token::KwLParen)] + spelled_list(
            args,
            0,
            Token::KwComma,
            Token::KwRParen,
        ),
        Node::FunctionDecl(name, params, body) => seq![
            sign(Token::KwFn),
            ident(name),
            sign(Token::KwLParen),
        ] + (spelled_params(params, 0) + braced(body)),
        Node::IfStatement(cond, body, has_else, else_body) => seq![sign(Token::KwIf)] + (spelled(
            *cond,
        ) + (braced(body) + if has_else {
            seq![sign(Token::KwElse)] + braced(else_body)
        } else {
            Seq::empty()
        })),
        Node::ConditionalLoop(cond, body) => seq![sign(Token::KwLoop), sign(Token::KwWhile)] + (
        spelled(*cond) + braced(body)),
        Node::IncrementingLoop(name, lower, upper, body) => seq![
            sign(Token::KwLoop),
            ident(name),
            sign(Token::KwIn),
        ] + (spelled(*lower) + (seq![sign(Token::KwTo)] + (spelled(*upper) + braced(body)))),
    }
}

/// The tokens that spell the nodes of `nodes` from index `from` on, each
/// followed by a token of kind `after`, and a token of kind `close` at the
/// end.
pub open spec fn spelled_list(nodes: Seq<Node>, from: int, after: Token, close: Token) -> Seq<
    Lexeme,
>
    decreases nodes, 0nat, nodes.len() - from,
{
    if 0 <= from < nodes.len() {
        spelled(nodes[from]) + (seq![sign(after)] + spelled_list(nodes, from + 1, after, close))
    } else {
        seq![sign(close)]
    }
}

/// The tokens that spell a block: the statements, each followed by `;`, in
/// braces.
pub open spec fn braced(body: Seq<Node>) -> Seq<Lexeme>
    decreases body, 1nat,
{
    seq![sign(Token::KwLBrace)] + spelled_list(body, 0, Token::KwTerminator, Token::KwRBrace)
}

/// The function names that are known after the statement `node`, if `fns`
/// were known before it: a declaration adds its name, and what a
/// conditional or a loop declares in its bodies stays known.
pub open spec fn known_after(node: Node, fns: Seq<Seq<char>>) -> Seq<Seq<char>>
    decreases node, 1nat,
{
    match node {
        Node::FunctionDecl(name, _, _) => fns.push(name),
        Node::IfStatement(_, body, _, else_body) => known_after_list(
            else_body,
            0,
            known_after_list(body, 0, fns),
        ),
        Node::ConditionalLoop(_, body) => known_after_list(body, 0, fns),
        Node::IncrementingLoop(_, _, _, body) => known_after_list(body, 0, fns),
        _ => fns,
    }
}

/// The function names that are known after the statements of `nodes` from
/// index `from` on.
pub open spec fn known_after_list(nodes: Seq<Node>, from: int, fns: Seq<Seq<char>>) -> Seq<
    Seq<char>,
>
    decreases nodes, 0nat, nodes.len() - from,
{
    if 0 <= from < nodes.len() {
        known_after_list(nodes, from + 1, known_after(nodes[from], fns))
    } else {
        fns
    }
}

/// Whether `node` can be written as an expression where the names in `fns`
/// are functions: nothing, an atom, an operation with an atom to the left
/// and an expression to the right, a write to a variable that exists, or a
/// call of a known function whose arguments are expressions, none of them
/// nothing. A name that is a function's cannot stand for a variable.
pub open spec fn is_expression(node: Node, fns: Seq<Seq<char>>) -> bool
    decreases node, 1nat,
{
    match node {
        Node::Nothing | Node::Number(_) | Node::Text(_) | Node::Boolean(_) => true,
        Node::Variable(name) => !fns.contains(name),
        Node::Binary(_, lhs, rhs) => is_atom(*lhs, fns) && is_expression(*rhs, fns),
        Node::Assign(op, name, value) => op != AssignOp::Let && !fns.contains(name)
            && is_expression(*value, fns),
        Node::FunctionCall(name, args) => fns.contains(name) && are_arguments(args, 0, fns),
        _ => false,
    }
}

/// Whether the nodes of `args` from index `from` on can be written as
/// arguments.
pub open spec fn are_arguments(args: Seq<Node>, from: int, fns: Seq<Seq<char>>) -> bool
    decreases args, 0nat, args.len() - from,
{
    if 0 <= from < args.len() {
        !(args[from] is Nothing) && is_expression(args[from], fns) && are_arguments(
            args,
            from + 1,
            fns,
        )
    } else {
        true
    }
}

/// Whether `node` can be written as a statement where the names in `fns`
/// are functions: an expression, a first binding of an expression, a
/// declaration, a conditional or a loop whose parts can be written. A
/// conditional without `else` has no statements for it.
pub open spec fn is_statement(node: Node, fns: Seq<Seq<char>>) -> bool
    decreases node, 1nat,
{
    match node {
        Node::Assign(op, _, value) => if op == AssignOp::Let {
            is_expression(*value, fns)
        } else {
            is_expression(node, fns)
        },
        Node::FunctionDecl(name, _, body) => are_statements(body, 0, fns.push(name)),
        Node::IfStatement(cond, body, has_else, else_body) => is_expression(*cond, fns)
            && are_statements(body, 0, fns) && if has_else {
            are_statements(else_body, 0, known_after_list(body, 0, fns))
        } else {
            else_body.len() == 0
        },
        Node::ConditionalLoop(cond, body) => is_expression(*cond, fns) && are_statements(
            body,
            0,
            fns,
        ),
        Node::IncrementingLoop(_, lower, upper, body) => is_expression(*lower, fns)
            && is_expression(*upper, fns) && are_statements(body, 0, fns),
        _ => is_expression(node, fns),
    }
}

/// Whether the nodes of `nodes` from index `from` on can be written as the
/// statements of a body, each with the names known after the ones before.
pub open spec fn are_statements(nodes: Seq<Node>, from: int, fns: Seq<Seq<char>>) -> bool
    decreases nodes, 0nat, nodes.len() - from,
{
    if 0 <= from < nodes.len() {
        is_statement(nodes[from], fns) && are_statements(
            nodes,
            from + 1,
            known_after(nodes[from], fns),
        )
    } else {
        true
    }
}

/// The tokens that spell the statements of a program from index `from` on,
/// each followed by `;`.
pub open spec fn spelled_program(nodes: Seq<Node>, from: int) -> Seq<Lexeme>
    decreases nodes.len() - from,
{
    if 0 <= from < nodes.len() {
        spelled(nodes[from]) + (seq![sign(Token::KwTerminator)] + spelled_program(nodes, from + 1))
    } else {
        Seq::empty()
    }
}

/// The statements of `nodes` from index `from` on, each followed by the
/// statement that is nothing, which is what a `;` between statements is.
pub open spec fn separated(nodes: Seq<Node>, from: int) -> Seq<Node>
    decreases nodes.len() - from,
{
    if 0 <= from < nodes.len() {
        seq![nodes[from], Node::Nothing] + separated(nodes, from + 1)
    } else {
        Seq::empty()
    }
}

/// Whether the tokens of `part` stand in `t` from position `pos` on.
pub open spec fn stands_at(t: Seq<Lexeme>, pos: int, part: Seq<Lexeme>) -> bool {
    0 <= pos && pos + part.len() <= t.len() && t.subrange(pos, pos + part.len()) == part
}

/// Whether the text of the token `l`, scanned alone, is that one token.
pub open spec fn scans_alone(l: Lexeme) -> bool {
    l.text.len() > 0 && lexeme_at(l.text, 0) == Some((l.token, l.text.len() as int))
}

/// The text that writes the tokens of `tokens` from index `from` on: the
/// text of each, followed by a space.
pub open spec fn written(tokens: Seq<Lexeme>, from: int) -> Seq<char>
    decreases tokens.len() - from,
{
    if 0 <= from < tokens.len() {
        tokens[from].text + (seq![' '] + written(tokens, from + 1))
    } else {
        Seq::empty()
    }
}

/// Whether the names, the numerals and the texts in `node` can be written:
/// each of them, as a token, scans alone. A name is one or more letters
/// that spell no keyword, a numeral is digits, or digits, a point and
/// digits, and a text is not empty and holds no double quote.
pub open spec fn can_be_written(node: Node) -> bool
    decreases node, 1nat,
{
    match node {
        Node::Number(_) | Node::Text(_) | Node::Variable(_) => scans_alone(atom_lexeme(node)),
        Node::Binary(_, lhs, rhs) => scans_alone(atom_lexeme(*lhs)) && can_be_written(*rhs),
        Node::Assign(_, name, value) => scans_alone(ident(name)) && can_be_written(*value),
        Node::FunctionCall(name, args) => scans_alone(ident(name)) && can_all_be_written(args, 0),
        Node::FunctionDecl(name, params, body) => scans_alone(ident(name)) && (forall|i: int|
            0 <= i < params.len() ==> scans_alone(ident(#[trigger] params[i])))
            && can_all_be_written(body, 0),
        Node::IfStatement(cond, body, _, else_body) => can_be_written(*cond)
            && can_all_be_written(body, 0) && can_all_be_written(else_body, 0),
        Node::ConditionalLoop(cond, body) => can_be_written(*cond) && can_all_be_written(body, 0),
        Node::IncrementingLoop(name, lower, upper, body) => scans_alone(ident(name))
            && can_be_written(*lower) && can_be_written(*upper) && can_all_be_written(body, 0),
        _ => true,
    }
}

/// Whether the names, the numerals and the texts in the nodes of `nodes`
/// from index `from` on can be written.
pub open spec fn can_all_be_written(nodes: Seq<Node>, from: int) -> bool
    decreases nodes, 0nat, nodes.len() - from,
{
    if 0 <= from < nodes.len() {
        can_be_written(nodes[from]) && can_all_be_written(nodes, from + 1)
    } else {
        true
    }
}

} // verus!
