//! The tokens of the language.

use vstd::prelude::*;

verus! {

/// The kind of a token.
#[derive(Clone, Copy, Debug, PartialEq, Eq, Structural)]
pub enum Token {
    KwLet,
    KwFn,
    KwIf,
    KwElse,
    KwLoop,
    KwBreak,
    KwWhile,
    KwTrue,
    KwFalse,
    KwNone,
    KwIn,
    KwTo,
    KwTerminator,
    KwComma,
    KwLParen,
    KwRParen,
    KwLBrace,
    KwRBrace,
    OpAddEq,
    OpSubEq,
    OpAdd,
    OpSub,
    OpMul,
    OpDiv,
    OpEqCheck,
    OpAssign,
    OpNeqCheck,
    OpGtCheck,
    OpLtCheck,
    OpGteCheck,
    OpLteCheck,
    OpModulo,
    Text,
    Identifier,
    Number,
    DecimalNumber,
}

/// A token as the parser reads it: its kind and the text it was scanned from.
#[derive(Debug)]
pub struct ParsableToken {
    pub token: Token,
    pub text: String,
}

/// The mathematical value of a `ParsableToken`.
pub struct Lexeme {
    pub token: Token,
    pub text: Seq<char>,
}

impl View for ParsableToken {
    type V = Lexeme;

    open spec fn view(&self) -> Lexeme {
        Lexeme { token: self.token, text: self.text@ }
    }
}

/// The values of a list of tokens.
pub open spec fn lexemes_of(v: Seq<ParsableToken>) -> Seq<Lexeme> {
    v.map_values(|t: ParsableToken| t@)
}

impl ParsableToken {
    /// A token of kind `token` scanned from `text`.
    pub fn new(token: Token, text: String) -> (r: ParsableToken)
        ensures
            r@ == (Lexeme { token, text: text@ }),
    {
        ParsableToken { token, text }
    }
}

} // verus!
