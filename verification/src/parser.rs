//! The recursive-descent parser: a list of tokens to the list of the
//! program's statements. It reads with an explicit position in the token
//! list and one token of lookahead.
//!
//! The parser calls itself once for each level of nesting in the source, and
//! once for each operator of a chain: how deep a program may nest is limited
//! by the stack.

use vstd::prelude::*;
use crate::ast::{copy_names, names_of, nodes_of, ASTNode, AssignOp, BinaryOp, Node};
use crate::grammar::{
    assign_op_of, atom_node, binary_op_of, builtin_names, failure_at, has_token,
    is_between_arguments, is_literal, is_nothing, parse_args_spec, parse_block_spec,
    parse_braced_spec, parse_call_spec, parse_else_spec, parse_expr_spec, parse_fn_spec,
    parse_if_spec, parse_let_spec, parse_loop_spec, parse_params_spec, parse_program_spec,
    parse_rest_spec, parse_spec, stands_alone, unquoted, Expected, Failure, Parsed, ParsedList,
    ParsedNames,
};
use crate::text::{chars_of, string_of_range};
use crate::token::{lexemes_of, ParsableToken, Token};

verus! {

/// Why parsing stopped.
#[derive(Clone, Copy, Debug, PartialEq, Eq)]
pub enum ParseError {
    /// The tokens end where one more is needed.
    UnexpectedEnd,
    /// The token at `position` (an index into the token list) cannot stand
    /// there.
    UnexpectedToken { expected: Expected, found: Token, position: usize },
}

impl View for ParseError {
    type V = Failure;

    open spec fn view(&self) -> Failure {
        match self {
            ParseError::UnexpectedEnd => Failure::UnexpectedEnd,
            ParseError::UnexpectedToken { expected, found, position } => Failure::UnexpectedToken {
                expected: *expected,
                found: *found,
                position: *position as int,
            },
        }
    }
}

/// What the parser knows while it reads: the names of the variables of the
/// function it is in, which it only records, and the names of the functions
/// declared so far, by which it tells a call from a variable.
#[derive(Debug)]
pub struct ParserState {
    pub registered_var_names: Vec<String>,
    pub registered_fn_names: Vec<String>,
}

impl ParserState {
    /// The known function names.
    pub open spec fn fns(&self) -> Seq<Seq<char>> {
        names_of(self.registered_fn_names@)
    }

    /// The recorded variable names.
    pub open spec fn vars(&self) -> Seq<Seq<char>> {
        names_of(self.registered_var_names@)
    }

    /// The state at the start of a program: no variable is recorded, and the
    /// built-in functions are known.
    pub fn new() -> (r: ParserState)
        ensures
            r.fns() == builtin_names(),
            r.vars() == Seq::<Seq<char>>::empty(),
    {
        let mut names: Vec<String> = Vec::new();
        names.push(String::from_str("print"));
        names.push(String::from_str("return"));
        let r = ParserState { registered_var_names: Vec::new(), registered_fn_names: names };
        assert(r.fns() =~= builtin_names());
        assert(r.vars() =~= Seq::<Seq<char>>::empty());
        r
    }

    /// Whether `name` is known as a function.
    pub fn knows_function(&self, name: &String) -> (r: bool)
        ensures
            r == self.fns().contains(name@),
    {
        let mut i: usize = 0;
        while i < self.registered_fn_names.len()
            invariant
                i <= self.registered_fn_names.len(),
                forall|j: int| 0 <= j < i ==> self.fns()[j] != name@,
            decreases self.registered_fn_names.len() - i,
        {
            if self.registered_fn_names[i] == *name {
                assert(self.fns()[i as int] == name@);
                return true;
            }
            i += 1;
        }
        false
    }
}

/// The operation that an operator token stands for.
fn binary_op(token: Token) -> (r: Option<BinaryOp>)
    ensures
        r == binary_op_of(token),
{
    match token {
        Token::OpAdd => Some(BinaryOp::Add),
        Token::OpSub => Some(BinaryOp::Sub),
        Token::OpMul => Some(BinaryOp::Mul),
        Token::OpDiv => Some(BinaryOp::Div),
        Token::OpModulo => Some(BinaryOp::Modulo),
        Token::OpEqCheck => Some(BinaryOp::EqCheck),
        Token::OpNeqCheck => Some(BinaryOp::NeqCheck),
        Token::OpGtCheck => Some(BinaryOp::GtCheck),
        Token::OpLtCheck => Some(BinaryOp::LtCheck),
        Token::OpGteCheck => Some(BinaryOp::GteCheck),
        Token::OpLteCheck => Some(BinaryOp::LteCheck),
        _ => None,
    }
}

/// The write that an assignment token stands for.
fn assign_op(token: Token) -> (r: Option<AssignOp>)
    ensures
        r == assign_op_of(token),
{
    match token {
        Token::OpAssign => Some(AssignOp::Change),
        Token::OpAddEq => Some(AssignOp::AddEq),
        Token::OpSubEq => Some(AssignOp::SubEq),
        _ => None,
    }
}

/// Whether an atom of kind `atom` followed by a token of kind `follower`
/// stands alone.
fn atom_stands_alone(atom: Token, follower: Token) -> (r: bool)
    ensures
        r == stands_alone(atom, follower),
{
    match follower {
        Token::KwTerminator | Token::KwTo | Token::KwComma | Token::KwLBrace => true,
        Token::KwRParen | Token::KwRBrace => true,
        Token::KwLParen => atom == Token::Identifier,
        _ => false,
    }
}

/// Whether a token of this kind, where a statement starts, is a statement
/// that is nothing.
fn nothing_kind(token: Token) -> (r: bool)
    ensures
        r == is_nothing(token),
{
    match token {
        Token::KwTerminator | Token::KwComma | Token::KwBreak | Token::KwNone => true,
        Token::KwLParen | Token::KwRParen => true,
        _ => false,
    }
}

/// Whether a token of this kind is passed over between arguments.
fn between_arguments(token: Token) -> (r: bool)
    ensures
        r == is_between_arguments(token),
{
    token == Token::KwComma || token == Token::KwLParen
}

/// Whether a token of this kind is a literal.
fn literal_kind(token: Token) -> (r: bool)
    ensures
        r == is_literal(token),
{
    match token {
        Token::Number | Token::DecimalNumber | Token::Text | Token::KwTrue | Token::KwFalse => true,
        _ => false,
    }
}

/// The text between the quotes of a text token.
fn strip_quotes(text: &String) -> (r: String)
    ensures
        r@ == unquoted(text@),
{
    let chars = chars_of(text.as_str());
    if chars.len() >= 2 {
        string_of_range(&chars, 1, chars.len() - 1)
    } else {
        String::new()
    }
}

/// The node of an atom.
fn make_atom(token: &ParsableToken) -> (r: ASTNode)
    ensures
        r@ == atom_node(token@),
{
    match token.token {
        Token::Number | Token::DecimalNumber => ASTNode::Number(token.text.clone()),
        Token::Text => ASTNode::Text(strip_quotes(&token.text)),
        Token::KwTrue => ASTNode::Boolean(true),
        Token::KwFalse => ASTNode::Boolean(false),
        _ => ASTNode::Variable(token.text.clone()),
    }
}

/// Whether the token at `pos` exists and is of kind `kind`.
fn is_kind(tokens: &Vec<ParsableToken>, pos: usize, kind: Token) -> (r: bool)
    ensures
        r == has_token(lexemes_of(tokens@), pos as int, kind),
{
    pos < tokens.len() && tokens[pos].token == kind
}

/// The error at `pos`, where `expected` was needed.
fn fail_at(tokens: &Vec<ParsableToken>, pos: usize, expected: Expected) -> (r: ParseError)
    ensures
        r@ == failure_at(lexemes_of(tokens@), pos as int, expected),
{
    if pos < tokens.len() {
        ParseError::UnexpectedToken { expected, found: tokens[pos].token, position: pos }
    } else {
        ParseError::UnexpectedEnd
    }
}

/// Parses the expression that starts at `pos`. Returns its node and the
/// position after it.
pub fn parse_expr(tokens: &Vec<ParsableToken>, pos: usize, state: &ParserState) -> (r: Result<
    (ASTNode, usize),
    ParseError,
>)
    ensures
        match r {
            Ok((node, next)) => parse_expr_spec(lexemes_of(tokens@), pos as int, state.fns())
                == Ok::<Parsed, Failure>(
                Parsed { node: node@, next: next as int, fns: state.fns() },
            ) && pos < next <= tokens.len(),
            Err(e) => parse_expr_spec(lexemes_of(tokens@), pos as int, state.fns()) == Err::<
                Parsed,
                Failure,
            >(e@),
        },
    decreases tokens.len() - pos, 1nat,
{
    if pos >= tokens.len() {
        return Err(ParseError::UnexpectedEnd);
    }
    let kind = tokens[pos].token;
    if kind == Token::KwNone {
        return Ok((ASTNode::Nothing, pos + 1));
    }
    if kind == Token::Identifier && state.knows_function(&tokens[pos].text) {
        return parse_call(tokens, pos, state);
    }
    if !(literal_kind(kind) || kind == Token::Identifier) {
        return Err(fail_at(tokens, pos, Expected::Expression));
    }
    if pos + 1 >= tokens.len() {
        return Err(ParseError::UnexpectedEnd);
    }
    let follower = tokens[pos + 1].token;
    if atom_stands_alone(kind, follower) {
        return Ok((make_atom(&tokens[pos]), pos + 1));
    }
    match binary_op(follower) {
        Some(op) => {
            return match parse_expr(tokens, pos + 2, state) {
                Ok((rhs, next)) => Ok(
                    (ASTNode::Binary(op, Box::new(make_atom(&tokens[pos])), Box::new(rhs)), next),
                ),
                Err(e) => Err(e),
            };
        },
        None => {},
    }
    match assign_op(follower) {
        Some(op) => {
            if kind != Token::Identifier {
                return Err(fail_at(tokens, pos, Expected::Name));
            }
            return match parse_expr(tokens, pos + 2, state) {
                Ok((rhs, next)) => Ok(
                    (ASTNode::Assign(op, tokens[pos].text.clone(), Box::new(rhs)), next),
                ),
                Err(e) => Err(e),
            };
        },
        None => {},
    }
    Err(fail_at(tokens, pos + 1, Expected::Operator))
}

/// Parses the call that starts at `pos` with a function's name.
fn parse_call(tokens: &Vec<ParsableToken>, pos: usize, state: &ParserState) -> (r: Result<
    (ASTNode, usize),
    ParseError,
>)
    requires
        pos < tokens.len(),
    ensures
        match r {
            Ok((node, next)) => parse_call_spec(lexemes_of(tokens@), pos as int, state.fns())
                == Ok::<Parsed, Failure>(
                Parsed { node: node@, next: next as int, fns: state.fns() },
            ) && pos < next <= tokens.len(),
            Err(e) => parse_call_spec(lexemes_of(tokens@), pos as int, state.fns()) == Err::<
                Parsed,
                Failure,
            >(e@),
        },
    decreases tokens.len() - pos, 0nat,
{
    if !is_kind(tokens, pos + 1, Token::KwLParen) {
        return Err(fail_at(tokens, pos + 1, Expected::Symbol(Token::KwLParen)));
    }
    let ghost t = lexemes_of(tokens@);
    let ghost fns = state.fns();
    let start = pos + 2;
    let mut args: Vec<ASTNode> = Vec::new();
    let mut p: usize = start;
    proof {
        assert(nodes_of(args@) =~= Seq::<Node>::empty());
        match parse_args_spec(t, start as int, fns) {
            Ok(rest) => {
                assert(nodes_of(args@) + rest.nodes =~= rest.nodes);
            },
            Err(f) => {},
        }
    }
    loop
        invariant
            pos < start <= p <= tokens.len(),
            start == pos + 2,
            t == lexemes_of(tokens@),
            fns == state.fns(),
            has_token(t, pos + 1, Token::KwLParen),
            match parse_args_spec(t, p as int, fns) {
                Ok(rest) => parse_args_spec(t, start as int, fns) == Ok::<ParsedList, Failure>(
                    ParsedList {
                        nodes: nodes_of(args@) + rest.nodes,
                        next: rest.next,
                        fns: rest.fns,
                    },
                ),
                Err(f) => parse_args_spec(t, start as int, fns) == Err::<ParsedList, Failure>(f),
            },
        decreases tokens.len() - p,
    {
        if p >= tokens.len() {
            return Err(ParseError::UnexpectedEnd);
        }
        let kind = tokens[p].token;
        if kind == Token::KwRParen {
            assert(nodes_of(args@) + Seq::<Node>::empty() =~= nodes_of(args@));
            return Ok((ASTNode::FunctionCall(tokens[pos].text.clone(), args), p + 1));
        }
        if between_arguments(kind) {
            p += 1;
        } else {
            match parse_expr(tokens, p, state) {
                Err(e) => {
                    return Err(e);
                },
                Ok((arg, next)) => {
                    let ghost before = nodes_of(args@);
                    let ghost value = arg@;
                    match arg {
                        ASTNode::Nothing => {},
                        _ => {
                            args.push(arg);
                            proof {
                                assert(nodes_of(args@) =~= before.push(value));
                                match parse_args_spec(t, next as int, fns) {
                                    Ok(rest) => {
                                        assert(before.push(value) + rest.nodes =~= before + (
                                        seq![value] + rest.nodes));
                                    },
                                    Err(f) => {},
                                }
                            }
                        },
                    }
                    p = next;
                },
            }
        }
    }
}

/// Parses the parameter names from `pos` up to the closing parenthesis.
fn parse_params(tokens: &Vec<ParsableToken>, pos: usize) -> (r: Result<
    (Vec<String>, usize),
    ParseError,
>)
    requires
        pos <= tokens.len(),
    ensures
        match r {
            Ok((names, next)) => parse_params_spec(lexemes_of(tokens@), pos as int) == Ok::<
                ParsedNames,
                Failure,
            >(ParsedNames { names: names_of(names@), next: next as int }) && pos < next
                <= tokens.len(),
            Err(e) => parse_params_spec(lexemes_of(tokens@), pos as int) == Err::<
                ParsedNames,
                Failure,
            >(e@),
        },
{
    let ghost t = lexemes_of(tokens@);
    let mut names: Vec<String> = Vec::new();
    let mut p: usize = pos;
    proof {
        assert(names_of(names@) =~= Seq::<Seq<char>>::empty());
        match parse_params_spec(t, pos as int) {
            Ok(rest) => {
                assert(names_of(names@) + rest.names =~= rest.names);
            },
            Err(f) => {},
        }
    }
    loop
        invariant
            pos <= p <= tokens.len(),
            t == lexemes_of(tokens@),
            match parse_params_spec(t, p as int) {
                Ok(rest) => parse_params_spec(t, pos as int) == Ok::<ParsedNames, Failure>(
                    ParsedNames { names: names_of(names@) + rest.names, next: rest.next },
                ),
                Err(f) => parse_params_spec(t, pos as int) == Err::<ParsedNames, Failure>(f),
            },
        decreases tokens.len() - p,
    {
        if p >= tokens.len() {
            return Err(ParseError::UnexpectedEnd);
        }
        let kind = tokens[p].token;
        if kind == Token::KwRParen {
            assert(names_of(names@) + Seq::<Seq<char>>::empty() =~= names_of(names@));
            return Ok((names, p + 1));
        }
        if kind == Token::Identifier {
            let ghost before = names_of(names@);
            let ghost name = t[p as int].text;
            names.push(tokens[p].text.clone());
            proof {
                assert(names_of(names@) =~= before.push(name));
                match parse_params_spec(t, p + 1) {
                    Ok(rest) => {
                        assert(before.push(name) + rest.names =~= before + (seq![name]
                            + rest.names));
                    },
                    Err(f) => {},
                }
            }
        } else if kind != Token::KwComma {
            return Err(fail_at(tokens, p, Expected::Name));
        }
        p += 1;
    }
}

/// Parses the statements from `pos` up to the closing brace.
fn parse_block(tokens: &Vec<ParsableToken>, pos: usize, state: ParserState) -> (r: Result<
    (Vec<ASTNode>, usize, ParserState),
    ParseError,
>)
    requires
        pos <= tokens.len(),
    ensures
        match r {
            Ok((nodes, next, after)) => parse_block_spec(
                lexemes_of(tokens@),
                pos as int,
                state.fns(),
            ) == Ok::<ParsedList, Failure>(
                ParsedList { nodes: nodes_of(nodes@), next: next as int, fns: after.fns() },
            ) && pos < next <= tokens.len() && after.vars() == state.vars(),
            Err(e) => parse_block_spec(lexemes_of(tokens@), pos as int, state.fns()) == Err::<
                ParsedList,
                Failure,
            >(e@),
        },
    decreases tokens.len() - pos, 4nat,
{
    let ghost t = lexemes_of(tokens@);
    let ghost fns0 = state.fns();
    let ghost vars0 = state.vars();
    let mut nodes: Vec<ASTNode> = Vec::new();
    let mut p: usize = pos;
    let mut current = state;
    proof {
        assert(nodes_of(nodes@) =~= Seq::<Node>::empty());
        match parse_block_spec(t, pos as int, fns0) {
            Ok(rest) => {
                assert(nodes_of(nodes@) + rest.nodes =~= rest.nodes);
            },
            Err(f) => {},
        }
    }
    loop
        invariant
            pos <= p <= tokens.len(),
            t == lexemes_of(tokens@),
            fns0 == state.fns(),
            vars0 == state.vars(),
            current.vars() == vars0,
            match parse_block_spec(t, p as int, current.fns()) {
                Ok(rest) => parse_block_spec(t, pos as int, fns0) == Ok::<ParsedList, Failure>(
                    ParsedList {
                        nodes: nodes_of(nodes@) + rest.nodes,
                        next: rest.next,
                        fns: rest.fns,
                    },
                ),
                Err(f) => parse_block_spec(t, pos as int, fns0) == Err::<ParsedList, Failure>(f),
            },
        decreases tokens.len() - p,
    {
        if p >= tokens.len() {
            return Err(ParseError::UnexpectedEnd);
        }
        let kind = tokens[p].token;
        if kind == Token::KwRBrace {
            assert(nodes_of(nodes@) + Seq::<Node>::empty() =~= nodes_of(nodes@));
            return Ok((nodes, p + 1, current));
        }
        match parse(tokens, p, current) {
            Err(e) => {
                return Err(e);
            },
            Ok((item, next, after)) => {
                let ghost before = nodes_of(nodes@);
                let ghost value = item@;
                let keep = match item {
                    ASTNode::Nothing => kind == Token::KwNone,
                    _ => true,
                };
                if keep {
                    nodes.push(item);
                    proof {
                        assert(nodes_of(nodes@) =~= before.push(value));
                        match parse_block_spec(t, next as int, after.fns()) {
                            Ok(rest) => {
                                assert(before.push(value) + rest.nodes =~= before + (seq![value]
                                    + rest.nodes));
                            },
                            Err(f) => {},
                        }
                    }
                }
                current = after;
                p = next;
            },
        }
    }
}

/// Parses the block that starts at `pos` with an opening brace.
fn parse_braced(tokens: &Vec<ParsableToken>, pos: usize, state: ParserState) -> (r: Result<
    (Vec<ASTNode>, usize, ParserState),
    ParseError,
>)
    requires
        pos <= tokens.len(),
    ensures
        match r {
            Ok((nodes, next, after)) => parse_braced_spec(
                lexemes_of(tokens@),
                pos as int,
                state.fns(),
            ) == Ok::<ParsedList, Failure>(
                ParsedList { nodes: nodes_of(nodes@), next: next as int, fns: after.fns() },
            ) && pos < next <= tokens.len() && after.vars() == state.vars(),
            Err(e) => parse_braced_spec(lexemes_of(tokens@), pos as int, state.fns()) == Err::<
                ParsedList,
                Failure,
            >(e@),
        },
    decreases tokens.len() - pos, 5nat,
{
    if !is_kind(tokens, pos, Token::KwLBrace) {
        return Err(fail_at(tokens, pos, Expected::Symbol(Token::KwLBrace)));
    }
    parse_block(tokens, pos + 1, state)
}

/// Parses the declaration that starts at `pos` with `let`.
fn parse_let(tokens: &Vec<ParsableToken>, pos: usize, state: &ParserState) -> (r: Result<
    (ASTNode, usize),
    ParseError,
>)
    requires
        pos < tokens.len(),
    ensures
        match r {
            Ok((node, next)) => parse_let_spec(lexemes_of(tokens@), pos as int, state.fns())
                == Ok::<Parsed, Failure>(
                Parsed { node: node@, next: next as int, fns: state.fns() },
            ) && pos < next <= tokens.len(),
            Err(e) => parse_let_spec(lexemes_of(tokens@), pos as int, state.fns()) == Err::<
                Parsed,
                Failure,
            >(e@),
        },
    decreases tokens.len() - pos, 2nat,
{
    if !is_kind(tokens, pos + 1, Token::Identifier) {
        return Err(fail_at(tokens, pos + 1, Expected::Name));
    }
    if !is_kind(tokens, pos + 2, Token::OpAssign) {
        return Err(fail_at(tokens, pos + 2, Expected::Symbol(Token::OpAssign)));
    }
    match parse_expr(tokens, pos + 3, state) {
        Ok((value, next)) => Ok(
            (ASTNode::Assign(AssignOp::Let, tokens[pos + 1].text.clone(), Box::new(value)), next),
        ),
        Err(e) => Err(e),
    }
}

/// Parses the function declaration that starts at `pos` with `fn`.
fn parse_fn(tokens: &Vec<ParsableToken>, pos: usize, state: ParserState) -> (r: Result<
    (ASTNode, usize, ParserState),
    ParseError,
>)
    requires
        pos < tokens.len(),
    ensures
        match r {
            Ok((node, next, after)) => parse_fn_spec(lexemes_of(tokens@), pos as int, state.fns())
                == Ok::<Parsed, Failure>(
                Parsed { node: node@, next: next as int, fns: after.fns() },
            ) && pos < next <= tokens.len() && after.vars() == state.vars(),
            Err(e) => parse_fn_spec(lexemes_of(tokens@), pos as int, state.fns()) == Err::<
                Parsed,
                Failure,
            >(e@),
        },
    decreases tokens.len() - pos, 2nat,
{
    if !is_kind(tokens, pos + 1, Token::Identifier) {
        return Err(fail_at(tokens, pos + 1, Expected::Name));
    }
    if !is_kind(tokens, pos + 2, Token::KwLParen) {
        return Err(fail_at(tokens, pos + 2, Expected::Symbol(Token::KwLParen)));
    }
    let ghost t = lexemes_of(tokens@);
    let ghost fns0 = state.fns();
    let mut outer = state;
    outer.registered_fn_names.push(tokens[pos + 1].text.clone());
    assert(outer.fns() =~= fns0.push(t[pos + 1].text));
    match parse_params(tokens, pos + 3) {
        Err(e) => Err(e),
        Ok((params, after_params)) => {
            let inner = ParserState {
                registered_var_names: copy_names(&params),
                registered_fn_names: copy_names(&outer.registered_fn_names),
            };
            match parse_braced(tokens, after_params, inner) {
                Err(e) => Err(e),
                Ok((body, next, _)) => Ok(
                    (ASTNode::FunctionDecl(tokens[pos + 1].text.clone(), params, body), next, outer),
                ),
            }
        },
    }
}

/// Parses what follows the body of an `if`.
fn parse_else(tokens: &Vec<ParsableToken>, pos: usize, state: ParserState) -> (r: Result<
    (bool, Vec<ASTNode>, usize, ParserState),
    ParseError,
>)
    requires
        pos <= tokens.len(),
    ensures
        match r {
            Ok((has_else, nodes, next, after)) => parse_else_spec(
                lexemes_of(tokens@),
                pos as int,
                state.fns(),
            ) == Ok::<(bool, ParsedList), Failure>(
                (
                    has_else,
                    ParsedList { nodes: nodes_of(nodes@), next: next as int, fns: after.fns() },
                ),
            ) && pos <= next <= tokens.len() && after.vars() == state.vars(),
            Err(e) => parse_else_spec(lexemes_of(tokens@), pos as int, state.fns()) == Err::<
                (bool, ParsedList),
                Failure,
            >(e@),
        },
    decreases tokens.len() - pos, 6nat,
{
    if !is_kind(tokens, pos, Token::KwElse) {
        let nodes: Vec<ASTNode> = Vec::new();
        assert(nodes_of(nodes@) =~= Seq::<Node>::empty());
        return Ok((false, nodes, pos, state));
    }
    if is_kind(tokens, pos + 1, Token::KwLBrace) {
        return match parse_block(tokens, pos + 2, state) {
            Ok((nodes, next, after)) => Ok((true, nodes, next, after)),
            Err(e) => Err(e),
        };
    }
    match parse(tokens, pos + 1, state) {
        Ok((one, next, after)) => {
            let ghost value = one@;
            let mut nodes: Vec<ASTNode> = Vec::new();
            nodes.push(one);
            assert(nodes_of(nodes@) =~= seq![value]);
            Ok((true, nodes, next, after))
        },
        Err(e) => Err(e),
    }
}

/// Parses the conditional that starts at `pos` with `if`.
fn parse_if(tokens: &Vec<ParsableToken>, pos: usize, state: ParserState) -> (r: Result<
    (ASTNode, usize, ParserState),
    ParseError,
>)
    requires
        pos < tokens.len(),
    ensures
        match r {
            Ok((node, next, after)) => parse_if_spec(lexemes_of(tokens@), pos as int, state.fns())
                == Ok::<Parsed, Failure>(
                Parsed { node: node@, next: next as int, fns: after.fns() },
            ) && pos < next <= tokens.len() && after.vars() == state.vars(),
            Err(e) => parse_if_spec(lexemes_of(tokens@), pos as int, state.fns()) == Err::<
                Parsed,
                Failure,
            >(e@),
        },
    decreases tokens.len() - pos, 2nat,
{
    match parse_expr(tokens, pos + 1, &state) {
        Err(e) => Err(e),
        Ok((cond, after_cond)) => match parse_braced(tokens, after_cond, state) {
            Err(e) => Err(e),
            Ok((body, after_body, state)) => match parse_else(tokens, after_body, state) {
                Err(e) => Err(e),
                Ok((has_else, else_body, next, state)) => Ok(
                    (ASTNode::IfStatement(Box::new(cond), body, has_else, else_body), next, state),
                ),
            },
        },
    }
}

/// Parses the loop that starts at `pos` with `loop`.
fn parse_loop(tokens: &Vec<ParsableToken>, pos: usize, state: ParserState) -> (r: Result<
    (ASTNode, usize, ParserState),
    ParseError,
>)
    requires
        pos < tokens.len(),
    ensures
        match r {
            Ok((node, next, after)) => parse_loop_spec(
                lexemes_of(tokens@),
                pos as int,
                state.fns(),
            ) == Ok::<Parsed, Failure>(
                Parsed { node: node@, next: next as int, fns: after.fns() },
            ) && pos < next <= tokens.len() && after.vars() == state.vars(),
            Err(e) => parse_loop_spec(lexemes_of(tokens@), pos as int, state.fns()) == Err::<
                Parsed,
                Failure,
            >(e@),
        },
    decreases tokens.len() - pos, 2nat,
{
    if is_kind(tokens, pos + 1, Token::KwWhile) {
        return match parse_expr(tokens, pos + 2, &state) {
            Err(e) => Err(e),
            Ok((cond, after_cond)) => match parse_braced(tokens, after_cond, state) {
                Err(e) => Err(e),
                Ok((body, next, state)) => Ok(
                    (ASTNode::ConditionalLoop(Box::new(cond), body), next, state),
                ),
            },
        };
    }
    if !is_kind(tokens, pos + 1, Token::Identifier) {
        return Err(fail_at(tokens, pos + 1, Expected::Name));
    }
    if !is_kind(tokens, pos + 2, Token::KwIn) {
        return Err(fail_at(tokens, pos + 2, Expected::Symbol(Token::KwIn)));
    }
    match parse_expr(tokens, pos + 3, &state) {
        Err(e) => Err(e),
        Ok((lower, after_lower)) => {
            if !is_kind(tokens, after_lower, Token::KwTo) {
                return Err(fail_at(tokens, after_lower, Expected::Symbol(Token::KwTo)));
            }
            match parse_expr(tokens, after_lower + 1, &state) {
                Err(e) => Err(e),
                Ok((upper, after_upper)) => match parse_braced(tokens, after_upper, state) {
                    Err(e) => Err(e),
                    Ok((body, next, state)) => Ok(
                        (
                            ASTNode::IncrementingLoop(
                                tokens[pos + 1].text.clone(),
                                Box::new(lower),
                                Box::new(upper),
                                body,
                            ),
                            next,
                            state,
                        ),
                    ),
                },
            }
        },
    }
}

/// Parses the construct that starts at `pos`, read as a statement, with the
/// names in `state`. Returns its node, the position after the last token
/// that belongs to it, and the state with the function names that it
/// declared; the recorded variable names are as they were. Fails where the
/// tokens are not a statement, and says where and what was needed.
pub fn parse(tokens: &Vec<ParsableToken>, pos: usize, state: ParserState) -> (r: Result<
    (ASTNode, usize, ParserState),
    ParseError,
>)
    ensures
        match r {
            Ok((node, next, after)) => parse_spec(lexemes_of(tokens@), pos as int, state.fns())
                == Ok::<Parsed, Failure>(
                Parsed { node: node@, next: next as int, fns: after.fns() },
            ) && pos < next <= tokens.len() && after.vars() == state.vars(),
            Err(e) => parse_spec(lexemes_of(tokens@), pos as int, state.fns()) == Err::<
                Parsed,
                Failure,
            >(e@),
        },
    decreases tokens.len() - pos, 3nat,
{
    if pos >= tokens.len() {
        return Err(ParseError::UnexpectedEnd);
    }
    match tokens[pos].token {
        Token::KwLet => match parse_let(tokens, pos, &state) {
            Ok((node, next)) => Ok((node, next, state)),
            Err(e) => Err(e),
        },
        Token::KwFn => parse_fn(tokens, pos, state),
        Token::KwIf => parse_if(tokens, pos, state),
        Token::KwLoop => parse_loop(tokens, pos, state),
        kind => {
            if nothing_kind(kind) {
                Ok((ASTNode::Nothing, pos + 1, state))
            } else {
                match parse_expr(tokens, pos, &state) {
                    Ok((node, next)) => Ok((node, next, state)),
                    Err(e) => Err(e),
                }
            }
        },
    }
}

/// Parses a whole program: the statements that the tokens spell, in order,
/// read with only the built-in functions known at the start. Fails where the
/// tokens are not a program, and says where and what was needed.
pub fn parse_program(tokens: &Vec<ParsableToken>) -> (r: Result<Vec<ASTNode>, ParseError>)
    ensures
        match r {
            Ok(nodes) => parse_program_spec(lexemes_of(tokens@)) == Ok::<Seq<Node>, Failure>(
                nodes_of(nodes@),
            ),
            Err(e) => parse_program_spec(lexemes_of(tokens@)) == Err::<Seq<Node>, Failure>(e@),
        },
{
    let ghost t = lexemes_of(tokens@);
    let mut nodes: Vec<ASTNode> = Vec::new();
    let mut p: usize = 0;
    let mut current = ParserState::new();
    proof {
        assert(nodes_of(nodes@) =~= Seq::<Node>::empty());
        match parse_program_spec(t) {
            Ok(rest) => {
                assert(nodes_of(nodes@) + rest =~= rest);
            },
            Err(f) => {},
        }
    }
    while p < tokens.len()
        invariant
            p <= tokens.len(),
            t == lexemes_of(tokens@),
            match parse_rest_spec(t, p as int, current.fns()) {
                Ok(rest) => parse_program_spec(t) == Ok::<Seq<Node>, Failure>(
                    nodes_of(nodes@) + rest,
                ),
                Err(f) => parse_program_spec(t) == Err::<Seq<Node>, Failure>(f),
            },
        decreases tokens.len() - p,
    {
        match parse(tokens, p, current) {
            Err(e) => {
                return Err(e);
            },
            Ok((item, next, after)) => {
                let ghost before = nodes_of(nodes@);
                let ghost value = item@;
                nodes.push(item);
                proof {
                    assert(nodes_of(nodes@) =~= before.push(value));
                    match parse_rest_spec(t, next as int, after.fns()) {
                        Ok(rest) => {
                            assert(before.push(value) + rest =~= before + (seq![value] + rest));
                        },
                        Err(f) => {},
                    }
                }
                current = after;
                p = next;
            },
        }
    }
    assert(nodes_of(nodes@) + Seq::<Node>::empty() =~= nodes_of(nodes@));
    Ok(nodes)
}

} // verus!
