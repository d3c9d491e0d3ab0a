//! The grammar of the language, as functions from a list of tokens and a
//! position to the construct that starts there.
//!
//! There is no precedence among operators: an atom followed by an operator
//! takes everything to the right of the operator as its right operand, so
//! chains nest to the right whatever the operators are.
//!
//! An identifier is a call if a function of that name was declared before
//! it in the text, and a variable if not. So the name of a function that is
//! declared only later reads as a variable even where a call was written:
//! the variable ends before the parenthesis, and a parenthesis that opens or
//! closes no call is nothing, as a statement and among arguments.
//!
//! Where a function goes on behind a construct that it has read, it first
//! makes sure that the construct took a token and ended within the tokens,
//! which shows that reading comes to an end. Every construct does so.

use vstd::prelude::*;
use crate::ast::{AssignOp, BinaryOp, Node};
use crate::token::{Lexeme, Token};

verus! {

/// What the parser needed where it stopped.
#[derive(Clone, Copy, Debug, PartialEq, Eq, Structural)]
pub enum Expected {
    /// The start of an expression: a literal, a variable or a call.
    Expression,
    /// An operator, or a token that ends an expression.
    Operator,
    /// An identifier that names a variable, a parameter or a function.
    Name,
    /// This very token.
    Symbol(Token),
}

/// Why a list of tokens is not a program.
pub enum Failure {
    /// The tokens end where one more is needed.
    UnexpectedEnd,
    /// The token at `position` cannot stand there.
    UnexpectedToken { expected: Expected, found: Token, position: int },
}

/// A construct that was read: its node, the position after it, and the
/// function names known after it.
pub struct Parsed {
    pub node: Node,
    pub next: int,
    pub fns: Seq<Seq<char>>,
}

/// A list of constructs that was read up to and including its closing
/// delimiter.
pub struct ParsedList {
    pub nodes: Seq<Node>,
    pub next: int,
    pub fns: Seq<Seq<char>>,
}

/// A list of names that was read up to and including its closing
/// parenthesis.
pub struct ParsedNames {
    pub names: Seq<Seq<char>>,
    pub next: int,
}

/// The names that are known as functions before any declaration.
pub open spec fn builtin_names() -> Seq<Seq<char>> {
    seq!["print"@, "return"@]
}

/// The operation that an operator token stands for.
pub open spec fn binary_op_of(token: Token) -> Option<BinaryOp> {
    match token {
        Token::OpAdd => Some(BinaryOp::Add),
        Token::OpSub => Some(BinaryOp::Sub),
        Token::OpMul => Some(BinaryOp::Mul),
        Token::OpDiv => Some(BinaryOp::Div),
        Token::OpModulo => Some(BinaryOp::Modulo),
        Token::OpEqCheck => Some(BinaryOp::EqCheck),
        Token::OpNeqCheck => Some(BinaryOp::NeqCheck),
        Token::OpGtCheck => Some(BinaryOp::GtCheck),
        Token::OpLtCheck => Some(BinaryOp::LtCheck),
        Token::OpGteCheck => Some(BinaryOp::GteCheck),
        Token::OpLteCheck => Some(BinaryOp::LteCheck),
        _ => None,
    }
}

/// The write that an assignment token stands for when it follows a variable.
pub open spec fn assign_op_of(token: Token) -> Option<AssignOp> {
    match token {
        Token::OpAssign => Some(AssignOp::Change),
        Token::OpAddEq => Some(AssignOp::AddEq),
        Token::OpSubEq => Some(AssignOp::SubEq),
        _ => None,
    }
}

/// Whether an atom followed by `token` stands alone: the token ends a
/// statement, an argument, a bound or a condition, or closes a list. The
/// token itself is left for the enclosing construct to read.
pub open spec fn ends_atom(token: Token) -> bool {
    match token {
        Token::KwTerminator | Token::KwTo | Token::KwComma | Token::KwLBrace => true,
        Token::KwRParen | Token::KwRBrace => true,
        _ => false,
    }
}

/// Whether an atom of kind `atom` followed by a token of kind `follower`
/// stands alone: the follower ends it, or it is an identifier before an
/// opening parenthesis, which is the name of a function that is not known.
pub open spec fn stands_alone(atom: Token, follower: Token) -> bool {
    ends_atom(follower) || (atom == Token::Identifier && follower == Token::KwLParen)
}

/// Whether a token of this kind, where a statement starts, is a statement
/// that is nothing: a separator (`;` or `,`), a parenthesis that opens or
/// closes no call, `break` or `none`.
pub open spec fn is_nothing(token: Token) -> bool {
    match token {
        Token::KwTerminator | Token::KwComma | Token::KwBreak | Token::KwNone => true,
        Token::KwLParen | Token::KwRParen => true,
        _ => false,
    }
}

/// Whether a token of this kind is passed over between arguments: a comma,
/// or a parenthesis that opens no call.
pub open spec fn is_between_arguments(token: Token) -> bool {
    token == Token::KwComma || token == Token::KwLParen
}

/// Whether a token of this kind is an atom by itself, whatever names are
/// known: a number, a text or a boolean.
pub open spec fn is_literal(token: Token) -> bool {
    match token {
        Token::Number | Token::DecimalNumber | Token::Text | Token::KwTrue | Token::KwFalse => true,
        _ => false,
    }
}

/// The text between the quotes of a text token.
pub open spec fn unquoted(text: Seq<char>) -> Seq<char> {
    if text.len() >= 2 {
        text.subrange(1, text.len() - 1)
    } else {
        Seq::empty()
    }
}

/// The node of an atom: a literal, or an identifier read as a variable.
pub open spec fn atom_node(lexeme: Lexeme) -> Node {
    match lexeme.token {
        Token::Number | Token::DecimalNumber => Node::Number(lexeme.text),
        Token::Text => Node::Text(unquoted(lexeme.text)),
        Token::KwTrue => Node::Boolean(true),
        Token::KwFalse => Node::Boolean(false),
        _ => Node::Variable(lexeme.text),
    }
}

/// The failure at position `pos`, where `expected` was needed: the end of
/// the tokens, or the token that stands there.
pub open spec fn failure_at(t: Seq<Lexeme>, pos: int, expected: Expected) -> Failure {
    if 0 <= pos < t.len() {
        Failure::UnexpectedToken { expected, found: t[pos].token, position: pos }
    } else {
        Failure::UnexpectedEnd
    }
}

/// Whether the token at `pos` exists and is of kind `token`.
pub open spec fn has_token(t: Seq<Lexeme>, pos: int, token: Token) -> bool {
    0 <= pos < t.len() && t[pos].token == token
}

/// The expression that starts at `pos`: an atom alone, an atom with an
/// operator and the expression to its right, a write to a variable, or a
/// call. An identifier is a call if and only if it is in `fns`; an
/// identifier that is not in `fns` is a variable, also before an opening
/// parenthesis, which is then left for the enclosing construct to read.
pub open spec fn parse_expr_spec(t: Seq<Lexeme>, pos: int, fns: Seq<Seq<char>>) -> Result<
    Parsed,
    Failure,
>
    decreases t.len() - pos, 1nat,
{
    if pos < 0 || pos >= t.len() {
        Err(Failure::UnexpectedEnd)
    } else if t[pos].token == Token::KwNone {
        Ok(Parsed { node: Node::Nothing, next: pos + 1, fns })
    } else if t[pos].token == Token::Identifier && fns.contains(t[pos].text) {
        parse_call_spec(t, pos, fns)
    } else if is_literal(t[pos].token) || t[pos].token == Token::Identifier {
        if pos + 1 >= t.len() {
            Err(Failure::UnexpectedEnd)
        } else if stands_alone(t[pos].token, t[pos + 1].token) {
            Ok(Parsed { node: atom_node(t[pos]), next: pos + 1, fns })
        } else if binary_op_of(t[pos + 1].token) is Some {
            match parse_expr_spec(t, pos + 2, fns) {
                Ok(rhs) => Ok(
                    Parsed {
                        node: Node::Binary(
                            binary_op_of(t[pos + 1].token)->0,
                            Box::new(atom_node(t[pos])),
                            Box::new(rhs.node),
                        ),
                        next: rhs.next,
                        fns,
                    },
                ),
                Err(f) => Err(f),
            }
        } else if assign_op_of(t[pos + 1].token) is Some {
            if t[pos].token != Token::Identifier {
                Err(failure_at(t, pos, Expected::Name))
            } else {
                match parse_expr_spec(t, pos + 2, fns) {
                    Ok(rhs) => Ok(
                        Parsed {
                            node: Node::Assign(
                                assign_op_of(t[pos + 1].token)->0,
                                t[pos].text,
                                Box::new(rhs.node),
                            ),
                            next: rhs.next,
                            fns,
                        },
                    ),
                    Err(f) => Err(f),
                }
            }
        } else {
            Err(failure_at(t, pos + 1, Expected::Operator))
        }
    } else {
        Err(failure_at(t, pos, Expected::Expression))
    }
}

/// The call that starts at `pos`: a function's name, `(`, the arguments and
/// `)`.
pub open spec fn parse_call_spec(t: Seq<Lexeme>, pos: int, fns: Seq<Seq<char>>) -> Result<
    Parsed,
    Failure,
>
    decreases t.len() - pos, 0nat,
{
    if pos < 0 || pos >= t.len() {
        Err(Failure::UnexpectedEnd)
    } else if !has_token(t, pos + 1, Token::KwLParen) {
        Err(failure_at(t, pos + 1, Expected::Symbol(Token::KwLParen)))
    } else {
        match parse_args_spec(t, pos + 2, fns) {
            Ok(args) => Ok(
                Parsed { node: Node::FunctionCall(t[pos].text, args.nodes), next: args.next, fns },
            ),
            Err(f) => Err(f),
        }
    }
}

/// The arguments from `pos` up to the closing `)`. Commas between them are
/// optional, a parenthesis that opens no call is passed over, and an
/// argument that is nothing is left out.
pub open spec fn parse_args_spec(t: Seq<Lexeme>, pos: int, fns: Seq<Seq<char>>) -> Result<
    ParsedList,
    Failure,
>
    decreases t.len() - pos, 2nat,
{
    if pos < 0 || pos >= t.len() {
        Err(Failure::UnexpectedEnd)
    } else if t[pos].token == Token::KwRParen {
        Ok(ParsedList { nodes: Seq::empty(), next: pos + 1, fns })
    } else if is_between_arguments(t[pos].token) {
        parse_args_spec(t, pos + 1, fns)
    } else {
        match parse_expr_spec(t, pos, fns) {
            Ok(arg) => {
                if !(pos < arg.next <= t.len()) {
                    Err(Failure::UnexpectedEnd)
                } else {
                    match parse_args_spec(t, arg.next, fns) {
                        Ok(rest) => Ok(
                            ParsedList {
                                nodes: if arg.node is Nothing {
                                    rest.nodes
                                } else {
                                    seq![arg.node] + rest.nodes
                                },
                                next: rest.next,
                                fns: rest.fns,
                            },
                        ),
                        Err(f) => Err(f),
                    }
                }
            },
            Err(f) => Err(f),
        }
    }
}

/// The parameter names from `pos` up to the closing `)`. Commas between
/// them are optional.
pub open spec fn parse_params_spec(t: Seq<Lexeme>, pos: int) -> Result<ParsedNames, Failure>
    decreases t.len() - pos,
{
    if pos < 0 || pos >= t.len() {
        Err(Failure::UnexpectedEnd)
    } else if t[pos].token == Token::KwRParen {
        Ok(ParsedNames { names: Seq::empty(), next: pos + 1 })
    } else if t[pos].token == Token::KwComma {
        parse_params_spec(t, pos + 1)
    } else if t[pos].token == Token::Identifier {
        match parse_params_spec(t, pos + 1) {
            Ok(rest) => Ok(ParsedNames { names: seq![t[pos].text] + rest.names, next: rest.next }),
            Err(f) => Err(f),
        }
    } else {
        Err(failure_at(t, pos, Expected::Name))
    }
}

/// The statements from `pos` up to the closing `}`. A statement that is
/// nothing is left out, unless it was written as `none`.
pub open spec fn parse_block_spec(t: Seq<Lexeme>, pos: int, fns: Seq<Seq<char>>) -> Result<
    ParsedList,
    Failure,
>
    decreases t.len() - pos, 4nat,
{
    if pos < 0 || pos >= t.len() {
        Err(Failure::UnexpectedEnd)
    } else if t[pos].token == Token::KwRBrace {
        Ok(ParsedList { nodes: Seq::empty(), next: pos + 1, fns })
    } else {
        match parse_spec(t, pos, fns) {
            Ok(item) => {
                if !(pos < item.next <= t.len()) {
                    Err(Failure::UnexpectedEnd)
                } else {
                    match parse_block_spec(t, item.next, item.fns) {
                        Ok(rest) => Ok(
                            ParsedList {
                                nodes: if item.node is Nothing && t[pos].token != Token::KwNone {
                                    rest.nodes
                                } else {
                                    seq![item.node] + rest.nodes
                                },
                                next: rest.next,
                                fns: rest.fns,
                            },
                        ),
                        Err(f) => Err(f),
                    }
                }
            },
            Err(f) => Err(f),
        }
    }
}

/// The block that starts at `pos`: `{`, statements and `}`.
pub open spec fn parse_braced_spec(t: Seq<Lexeme>, pos: int, fns: Seq<Seq<char>>) -> Result<
    ParsedList,
    Failure,
>
    decreases t.len() - pos, 5nat,
{
    if !has_token(t, pos, Token::KwLBrace) {
        Err(failure_at(t, pos, Expected::Symbol(Token::KwLBrace)))
    } else {
        parse_block_spec(t, pos + 1, fns)
    }
}

/// The declaration that starts at `pos` with `let`: the variable's name,
/// `=` and the expression for its value.
pub open spec fn parse_let_spec(t: Seq<Lexeme>, pos: int, fns: Seq<Seq<char>>) -> Result<
    Parsed,
    Failure,
>
    decreases t.len() - pos, 2nat,
{
    if !has_token(t, pos + 1, Token::Identifier) {
        Err(failure_at(t, pos + 1, Expected::Name))
    } else if !has_token(t, pos + 2, Token::OpAssign) {
        Err(failure_at(t, pos + 2, Expected::Symbol(Token::OpAssign)))
    } else {
        match parse_expr_spec(t, pos + 3, fns) {
            Ok(value) => Ok(
                Parsed {
                    node: Node::Assign(AssignOp::Let, t[pos + 1].text, Box::new(value.node)),
                    next: value.next,
                    fns,
                },
            ),
            Err(f) => Err(f),
        }
    }
}

/// The function declaration that starts at `pos` with `fn`: the name, the
/// parameters in parentheses and the body in braces. The name is known as a
/// function from the body on, so that the body can call it; names that the
/// body declares are known in the body only.
pub open spec fn parse_fn_spec(t: Seq<Lexeme>, pos: int, fns: Seq<Seq<char>>) -> Result<
    Parsed,
    Failure,
>
    decreases t.len() - pos, 2nat,
{
    if !has_token(t, pos + 1, Token::Identifier) {
        Err(failure_at(t, pos + 1, Expected::Name))
    } else if !has_token(t, pos + 2, Token::KwLParen) {
        Err(failure_at(t, pos + 2, Expected::Symbol(Token::KwLParen)))
    } else {
        match parse_params_spec(t, pos + 3) {
            Ok(params) => {
                if !(pos < params.next <= t.len()) {
                    Err(Failure::UnexpectedEnd)
                } else {
                    match parse_braced_spec(t, params.next, fns.push(t[pos + 1].text)) {
                        Ok(body) => Ok(
                            Parsed {
                                node: Node::FunctionDecl(
                                    t[pos + 1].text,
                                    params.names,
                                    body.nodes,
                                ),
                                next: body.next,
                                fns: fns.push(t[pos + 1].text),
                            },
                        ),
                        Err(f) => Err(f),
                    }
                }
            },
            Err(f) => Err(f),
        }
    }
}

/// What follows the body of an `if` that ends before `pos`: nothing, or
/// `else` with a block or with exactly one statement.
pub open spec fn parse_else_spec(t: Seq<Lexeme>, pos: int, fns: Seq<Seq<char>>) -> Result<
    (bool, ParsedList),
    Failure,
>
    decreases t.len() - pos, 6nat,
{
    if !has_token(t, pos, Token::KwElse) {
        Ok((false, ParsedList { nodes: Seq::empty(), next: pos, fns }))
    } else if has_token(t, pos + 1, Token::KwLBrace) {
        match parse_block_spec(t, pos + 2, fns) {
            Ok(body) => Ok((true, body)),
            Err(f) => Err(f),
        }
    } else {
        match parse_spec(t, pos + 1, fns) {
            Ok(one) => Ok(
                (true, ParsedList { nodes: seq![one.node], next: one.next, fns: one.fns }),
            ),
            Err(f) => Err(f),
        }
    }
}

/// The conditional that starts at `pos` with `if`: the condition, the body
/// in braces and what follows it.
pub open spec fn parse_if_spec(t: Seq<Lexeme>, pos: int, fns: Seq<Seq<char>>) -> Result<
    Parsed,
    Failure,
>
    decreases t.len() - pos, 2nat,
{
    match parse_expr_spec(t, pos + 1, fns) {
        Ok(cond) => {
            if !(pos < cond.next <= t.len()) {
                Err(Failure::UnexpectedEnd)
            } else {
                match parse_braced_spec(t, cond.next, fns) {
                    Ok(body) => {
                        if !(pos < body.next <= t.len()) {
                            Err(Failure::UnexpectedEnd)
                        } else {
                            match parse_else_spec(t, body.next, body.fns) {
                                Ok((has_else, else_body)) => Ok(
                                    Parsed {
                                        node: Node::IfStatement(
                                            Box::new(cond.node),
                                            body.nodes,
                                            has_else,
                                            else_body.nodes,
                                        ),
                                        next: else_body.next,
                                        fns: else_body.fns,
                                    },
                                ),
                                Err(f) => Err(f),
                            }
                        }
                    },
                    Err(f) => Err(f),
                }
            }
        },
        Err(f) => Err(f),
    }
}

/// The loop that starts at `pos` with `loop`: `while`, a condition and a
/// body, or a counter's name, `in`, a lower bound, `to`, an upper bound and
/// a body.
pub open spec fn parse_loop_spec(t: Seq<Lexeme>, pos: int, fns: Seq<Seq<char>>) -> Result<
    Parsed,
    Failure,
>
    decreases t.len() - pos, 2nat,
{
    if has_token(t, pos + 1, Token::KwWhile) {
        match parse_expr_spec(t, pos + 2, fns) {
            Ok(cond) => {
                if !(pos < cond.next <= t.len()) {
                    Err(Failure::UnexpectedEnd)
                } else {
                    match parse_braced_spec(t, cond.next, fns) {
                        Ok(body) => Ok(
                            Parsed {
                                node: Node::ConditionalLoop(Box::new(cond.node), body.nodes),
                                next: body.next,
                                fns: body.fns,
                            },
                        ),
                        Err(f) => Err(f),
                    }
                }
            },
            Err(f) => Err(f),
        }
    } else if !has_token(t, pos + 1, Token::Identifier) {
        Err(failure_at(t, pos + 1, Expected::Name))
    } else if !has_token(t, pos + 2, Token::KwIn) {
        Err(failure_at(t, pos + 2, Expected::Symbol(Token::KwIn)))
    } else {
        match parse_expr_spec(t, pos + 3, fns) {
            Ok(lower) => {
                if !(pos < lower.next <= t.len()) {
                    Err(Failure::UnexpectedEnd)
                } else if !has_token(t, lower.next, Token::KwTo) {
                    Err(failure_at(t, lower.next, Expected::Symbol(Token::KwTo)))
                } else {
                    match parse_expr_spec(t, lower.next + 1, fns) {
                        Ok(upper) => {
                            if !(pos < upper.next <= t.len()) {
                                Err(Failure::UnexpectedEnd)
                            } else {
                                match parse_braced_spec(t, upper.next, fns) {
                                    Ok(body) => Ok(
                                        Parsed {
                                            node: Node::IncrementingLoop(
                                                t[pos + 1].text,
                                                Box::new(lower.node),
                                                Box::new(upper.node),
                                                body.nodes,
                                            ),
                                            next: body.next,
                                            fns: body.fns,
                                        },
                                    ),
                                    Err(f) => Err(f),
                                }
                            }
                        },
                        Err(f) => Err(f),
                    }
                }
            },
            Err(f) => Err(f),
        }
    }
}

/// The construct that starts at `pos`, read as a statement: a declaration,
/// a conditional, a loop or an expression. A separator (`;` or `,`), a
/// parenthesis that opens or closes no call, `break` and `none` are
/// statements that are nothing.
pub open spec fn parse_spec(t: Seq<Lexeme>, pos: int, fns: Seq<Seq<char>>) -> Result<
    Parsed,
    Failure,
>
    decreases t.len() - pos, 3nat,
{
    if pos < 0 || pos >= t.len() {
        Err(Failure::UnexpectedEnd)
    } else {
        match t[pos].token {
            Token::KwLet => parse_let_spec(t, pos, fns),
            Token::KwFn => parse_fn_spec(t, pos, fns),
            Token::KwIf => parse_if_spec(t, pos, fns),
            Token::KwLoop => parse_loop_spec(t, pos, fns),
            _ => {
                if is_nothing(t[pos].token) {
                    Ok(Parsed { node: Node::Nothing, next: pos + 1, fns })
                } else {
                    parse_expr_spec(t, pos, fns)
                }
            },
        }
    }
}

/// The statements from `pos` to the end of the tokens, each one kept.
pub open spec fn parse_rest_spec(t: Seq<Lexeme>, pos: int, fns: Seq<Seq<char>>) -> Result<
    Seq<Node>,
    Failure,
>
    decreases t.len() - pos, 4nat,
{
    if pos < 0 || pos >= t.len() {
        Ok(Seq::empty())
    } else {
        match parse_spec(t, pos, fns) {
            Ok(item) => {
                if !(pos < item.next <= t.len()) {
                    Err(Failure::UnexpectedEnd)
                } else {
                    match parse_rest_spec(t, item.next, item.fns) {
                        Ok(rest) => Ok(seq![item.node] + rest),
                        Err(f) => Err(f),
                    }
                }
            },
            Err(f) => Err(f),
        }
    }
}

/// The program that a list of tokens spells: its statements in order, read
/// with only the built-in functions known at the start.
pub open spec fn parse_program_spec(t: Seq<Lexeme>) -> Result<Seq<Node>, Failure> {
    parse_rest_spec(t, 0, builtin_names())
}

} // verus!
