//! The scanner: cleaned source text to the list of its tokens.

use vstd::prelude::*;
use crate::text::{chars_of, string_of_range};
use crate::token::{lexemes_of, Lexeme, ParsableToken, Token};

verus! {

/// A character that no token can start with or continue, at `position`
/// (counted in characters from the start of the text).
#[derive(Clone, Copy, Debug, PartialEq, Eq, Structural)]
pub struct LexError {
    pub position: usize,
}

/// The classes of characters that tokens of unbounded length are made of.
#[derive(Clone, Copy, Debug, PartialEq, Eq, Structural)]
pub enum CharClass {
    /// `a` to `z` and `A` to `Z`.
    Letter,
    /// `0` to `9`.
    Digit,
    /// Anything but a double quote.
    Quoted,
}

/// Whether `c` is skipped between tokens: space, tab, line feed, form feed.
pub open spec fn is_space(c: char) -> bool {
    c == ' ' || c == '\t' || c == '\n' || c == '\u{c}'
}

/// Whether `c` belongs to the class `k`.
pub open spec fn in_class(k: CharClass, c: char) -> bool {
    match k {
        CharClass::Letter => ('a' <= c && c <= 'z') || ('A' <= c && c <= 'Z'),
        CharClass::Digit => '0' <= c && c <= '9',
        CharClass::Quoted => c != '"',
    }
}

/// The end of the longest run of characters of class `k` that starts at
/// `from`: the first index at or after `from` whose character is not in `k`,
/// or the length of `s`.
pub open spec fn run_end(s: Seq<char>, from: int, k: CharClass) -> int
    decreases s.len() - from,
{
    if from < 0 || from >= s.len() {
        s.len() as int
    } else if !in_class(k, s[from]) {
        from
    } else {
        run_end(s, from + 1, k)
    }
}

/// The kind of a run of letters: a keyword if it spells one, else an
/// identifier.
pub open spec fn word_kind(w: Seq<char>) -> Token {
    if w == "let"@ {
        Token::KwLet
    } else if w == "fn"@ {
        Token::KwFn
    } else if w == "if"@ {
        Token::KwIf
    } else if w == "else"@ {
        Token::KwElse
    } else if w == "loop"@ {
        Token::KwLoop
    } else if w == "break"@ {
        Token::KwBreak
    } else if w == "while"@ {
        Token::KwWhile
    } else if w == "true"@ {
        Token::KwTrue
    } else if w == "false"@ {
        Token::KwFalse
    } else if w == "none"@ {
        Token::KwNone
    } else if w == "in"@ {
        Token::KwIn
    } else if w == "to"@ {
        Token::KwTo
    } else {
        Token::Identifier
    }
}

/// The kind of the one-character token `c`, if `c` is one.
pub open spec fn symbol_kind(c: char) -> Option<Token> {
    if c == ';' {
        Some(Token::KwTerminator)
    } else if c == ',' {
        Some(Token::KwComma)
    } else if c == '(' {
        Some(Token::KwLParen)
    } else if c == ')' {
        Some(Token::KwRParen)
    } else if c == '{' {
        Some(Token::KwLBrace)
    } else if c == '}' {
        Some(Token::KwRBrace)
    } else if c == '+' {
        Some(Token::OpAdd)
    } else if c == '-' {
        Some(Token::OpSub)
    } else if c == '*' {
        Some(Token::OpMul)
    } else if c == '/' {
        Some(Token::OpDiv)
    } else if c == '%' {
        Some(Token::OpModulo)
    } else if c == '=' {
        Some(Token::OpAssign)
    } else if c == '>' {
        Some(Token::OpGtCheck)
    } else if c == '<' {
        Some(Token::OpLtCheck)
    } else {
        None
    }
}

/// The kind of the two-character token made of `c` and `=`, if there is one.
pub open spec fn compound_kind(c: char) -> Option<Token> {
    if c == '+' {
        Some(Token::OpAddEq)
    } else if c == '-' {
        Some(Token::OpSubEq)
    } else if c == '=' {
        Some(Token::OpEqCheck)
    } else if c == '!' {
        Some(Token::OpNeqCheck)
    } else if c == '>' {
        Some(Token::OpGteCheck)
    } else if c == '<' {
        Some(Token::OpLteCheck)
    } else {
        None
    }
}

/// The token that starts at index `at` of `s`, as its kind and the index
/// where it ends, or `None` if no token starts there. Of the tokens that
/// could start at `at`, this is the longest:
/// - a run of letters is a keyword or an identifier;
/// - a run of digits is a number, and together with a point and a second run
///   of digits a decimal number;
/// - a double quote, one or more other characters and a double quote are a
///   text;
/// - an operator character directly followed by `=` is the compound operator.
pub open spec fn lexeme_at(s: Seq<char>, at: int) -> Option<(Token, int)>
    recommends
        0 <= at < s.len(),
{
    let c = s[at];
    if in_class(CharClass::Letter, c) {
        let end = run_end(s, at, CharClass::Letter);
        Some((word_kind(s.subrange(at, end)), end))
    } else if in_class(CharClass::Digit, c) {
        let end = run_end(s, at, CharClass::Digit);
        if end + 1 < s.len() && s[end] == '.' && in_class(CharClass::Digit, s[end + 1]) {
            Some((Token::DecimalNumber, run_end(s, end + 1, CharClass::Digit)))
        } else {
            Some((Token::Number, end))
        }
    } else if c == '"' {
        let end = run_end(s, at + 1, CharClass::Quoted);
        if at + 1 < end && end < s.len() {
            Some((Token::Text, end + 1))
        } else {
            None
        }
    } else if at + 1 < s.len() && s[at + 1] == '=' && compound_kind(c) is Some {
        Some((compound_kind(c)->0, at + 2))
    } else if symbol_kind(c) is Some {
        Some((symbol_kind(c)->0, at + 1))
    } else {
        None
    }
}

/// The tokens of `s` from index `from` on, or the index of the first
/// character where no token can be read.
pub open spec fn scan_from(s: Seq<char>, from: int) -> Result<Seq<Lexeme>, int>
    decreases s.len() - from,
{
    if from < 0 || from >= s.len() {
        Ok(Seq::empty())
    } else if is_space(s[from]) {
        scan_from(s, from + 1)
    } else {
        match lexeme_at(s, from) {
            None => Err(from),
            Some((token, end)) => {
                if end <= from || end > s.len() {
                    Err(from)
                } else {
                    match scan_from(s, end) {
                        Ok(rest) => Ok(
                            seq![Lexeme { token, text: s.subrange(from, end) }] + rest,
                        ),
                        Err(e) => Err(e),
                    }
                }
            },
        }
    }
}

/// What `scan` returns for the text `s`.
pub open spec fn scan_spec(s: Seq<char>) -> Result<Seq<Lexeme>, int> {
    scan_from(s, 0)
}

/// A run ends at or after its start and within the text, every character in
/// it is of the class, and the character after it is not.
pub proof fn lemma_run_end(s: Seq<char>, from: int, k: CharClass)
    requires
        0 <= from <= s.len(),
    ensures
        from <= run_end(s, from, k) <= s.len(),
        forall|i: int| from <= i < run_end(s, from, k) ==> in_class(k, #[trigger] s[i]),
        run_end(s, from, k) < s.len() ==> !in_class(k, s[run_end(s, from, k)]),
    decreases s.len() - from,
{
    if from < s.len() && in_class(k, s[from]) {
        lemma_run_end(s, from + 1, k);
    }
}

/// A token is not empty and lies within the text: it ends after the place
/// where it starts, and at most at the end of the text.
pub proof fn law_token_takes_characters(s: Seq<char>, at: int)
    requires
        0 <= at < s.len(),
        lexeme_at(s, at) is Some,
    ensures
        ({
            let found = lexeme_at(s, at)->0;
            at < found.1 <= s.len()
        }),
{
    lemma_run_end(s, at, CharClass::Letter);
    lemma_run_end(s, at, CharClass::Digit);
    lemma_run_end(s, at + 1, CharClass::Quoted);
    let end = run_end(s, at, CharClass::Digit);
    if end + 1 < s.len() {
        lemma_run_end(s, end + 1, CharClass::Digit);
    }
}

/// Whether `c` is skipped between tokens.
fn is_space_char(c: char) -> (r: bool)
    ensures
        r == is_space(c),
{
    c == ' ' || c == '\t' || c == '\n' || c == '\u{c}'
}

/// Whether `c` belongs to the class `k`.
fn char_in_class(k: CharClass, c: char) -> (r: bool)
    ensures
        r == in_class(k, c),
{
    match k {
        CharClass::Letter => ('a' <= c && c <= 'z') || ('A' <= c && c <= 'Z'),
        CharClass::Digit => '0' <= c && c <= '9',
        CharClass::Quoted => c != '"',
    }
}

/// The end of the run of characters of class `k` that starts at `from`.
fn find_run_end(v: &Vec<char>, from: usize, k: CharClass) -> (r: usize)
    requires
        from <= v.len(),
    ensures
        r == run_end(v@, from as int, k),
        from <= r <= v.len(),
{
    let mut i: usize = from;
    while i < v.len() && char_in_class(k, v[i])
        invariant
            from <= i <= v.len(),
            run_end(v@, i as int, k) == run_end(v@, from as int, k),
        decreases v.len() - i,
    {
        i += 1;
    }
    i
}

/// Whether `t` is the word `w`.
fn spells(t: &String, w: &str) -> (r: bool)
    ensures
        r == (t@ == w@),
{
    let other = String::from_str(w);
    *t == other
}

/// The kind of a run of letters.
fn kind_of_word(t: &String) -> (r: Token)
    ensures
        r == word_kind(t@),
{
    if spells(t, "let") {
        Token::KwLet
    } else if spells(t, "fn") {
        Token::KwFn
    } else if spells(t, "if") {
        Token::KwIf
    } else if spells(t, "else") {
        Token::KwElse
    } else if spells(t, "loop") {
        Token::KwLoop
    } else if spells(t, "break") {
        Token::KwBreak
    } else if spells(t, "while") {
        Token::KwWhile
    } else if spells(t, "true") {
        Token::KwTrue
    } else if spells(t, "false") {
        Token::KwFalse
    } else if spells(t, "none") {
        Token::KwNone
    } else if spells(t, "in") {
        Token::KwIn
    } else if spells(t, "to") {
        Token::KwTo
    } else {
        Token::Identifier
    }
}

/// The kind of the one-character token `c`.
fn kind_of_symbol(c: char) -> (r: Option<Token>)
    ensures
        r == symbol_kind(c),
{
    if c == ';' {
        Some(Token::KwTerminator)
    } else if c == ',' {
        Some(Token::KwComma)
    } else if c == '(' {
        Some(Token::KwLParen)
    } else if c == ')' {
        Some(Token::KwRParen)
    } else if c == '{' {
        Some(Token::KwLBrace)
    } else if c == '}' {
        Some(Token::KwRBrace)
    } else if c == '+' {
        Some(Token::OpAdd)
    } else if c == '-' {
        Some(Token::OpSub)
    } else if c == '*' {
        Some(Token::OpMul)
    } else if c == '/' {
        Some(Token::OpDiv)
    } else if c == '%' {
        Some(Token::OpModulo)
    } else if c == '=' {
        Some(Token::OpAssign)
    } else if c == '>' {
        Some(Token::OpGtCheck)
    } else if c == '<' {
        Some(Token::OpLtCheck)
    } else {
        None
    }
}

/// The kind of the two-character token made of `c` and `=`.
fn kind_of_compound(c: char) -> (r: Option<Token>)
    ensures
        r == compound_kind(c),
{
    if c == '+' {
        Some(Token::OpAddEq)
    } else if c == '-' {
        Some(Token::OpSubEq)
    } else if c == '=' {
        Some(Token::OpEqCheck)
    } else if c == '!' {
        Some(Token::OpNeqCheck)
    } else if c == '>' {
        Some(Token::OpGteCheck)
    } else if c == '<' {
        Some(Token::OpLteCheck)
    } else {
        None
    }
}

/// Reads the token that starts at index `at` of `v`: its kind and the index
/// where it ends.
pub fn read_lexeme(v: &Vec<char>, at: usize) -> (r: Option<(Token, usize)>)
    requires
        at < v.len(),
    ensures
        match r {
            Some((token, end)) => lexeme_at(v@, at as int) == Some((token, end as int)) && at
                < end <= v.len(),
            None => lexeme_at(v@, at as int) is None,
        },
{
    let c = v[at];
    proof {
        lemma_run_end(v@, at as int, CharClass::Letter);
        lemma_run_end(v@, at as int, CharClass::Digit);
        lemma_run_end(v@, at + 1, CharClass::Quoted);
    }
    if char_in_class(CharClass::Letter, c) {
        let end = find_run_end(v, at, CharClass::Letter);
        let word = string_of_range(v, at, end);
        Some((kind_of_word(&word), end))
    } else if char_in_class(CharClass::Digit, c) {
        let end = find_run_end(v, at, CharClass::Digit);
        if end < v.len() - 1 && v[end] == '.' && char_in_class(CharClass::Digit, v[end + 1]) {
            proof {
                lemma_run_end(v@, end + 1, CharClass::Digit);
            }
            Some((Token::DecimalNumber, find_run_end(v, end + 1, CharClass::Digit)))
        } else {
            Some((Token::Number, end))
        }
    } else if c == '"' {
        let end = find_run_end(v, at + 1, CharClass::Quoted);
        if at + 1 < end && end < v.len() {
            Some((Token::Text, end + 1))
        } else {
            None
        }
    } else {
        let compound = kind_of_compound(c);
        if at < v.len() - 1 && v[at + 1] == '=' && compound.is_some() {
            Some((compound.unwrap(), at + 2))
        } else {
            let symbol = kind_of_symbol(c);
            if symbol.is_some() {
                Some((symbol.unwrap(), at + 1))
            } else {
                None
            }
        }
    }
}

/// Scans a list of characters into the list of its tokens.
pub fn scan_chars(v: &Vec<char>) -> (r: Result<Vec<ParsableToken>, LexError>)
    ensures
        match r {
            Ok(tokens) => scan_spec(v@) == Ok::<Seq<Lexeme>, int>(lexemes_of(tokens@)),
            Err(e) => scan_spec(v@) == Err::<Seq<Lexeme>, int>(e.position as int),
        },
{
    let mut out: Vec<ParsableToken> = Vec::new();
    let mut i: usize = 0;
    assert(lexemes_of(out@) =~= Seq::<Lexeme>::empty());
    while i < v.len()
        invariant
            i <= v.len(),
            match scan_from(v@, i as int) {
                Ok(rest) => scan_spec(v@) == Ok::<Seq<Lexeme>, int>(
                    lexemes_of(out@) + rest,
                ),
                Err(e) => scan_spec(v@) == Err::<Seq<Lexeme>, int>(e),
            },
        decreases v.len() - i,
    {
        if is_space_char(v[i]) {
            i += 1;
        } else {
            match read_lexeme(v, i) {
                None => {
                    return Err(LexError { position: i });
                },
                Some((token, end)) => {
                    let text = string_of_range(v, i, end);
                    let ghost before = lexemes_of(out@);
                    let ghost one = Lexeme { token, text: v@.subrange(i as int, end as int) };
                    out.push(ParsableToken::new(token, text));
                    proof {
                        assert(lexemes_of(out@) =~= before.push(one));
                        match scan_from(v@, end as int) {
                            Ok(rest) => {
                                assert(before.push(one) + rest =~= before + (seq![one] + rest));
                            },
                            Err(e) => {},
                        }
                    }
                    i = end;
                },
            }
        }
    }
    assert(lexemes_of(out@) + Seq::<Lexeme>::empty() =~= lexemes_of(out@));
    Ok(out)
}

/// Scans cleaned source text into the complete list of its tokens, in
/// order. Whitespace between tokens is skipped. A character that no token
/// can start with is an error, reported with its position.
pub fn scan(source: &str) -> (r: Result<Vec<ParsableToken>, LexError>)
    ensures
        match r {
            Ok(tokens) => scan_spec(source@) == Ok::<Seq<Lexeme>, int>(lexemes_of(tokens@)),
            Err(e) => scan_spec(source@) == Err::<Seq<Lexeme>, int>(e.position as int),
        },
{
    let chars = chars_of(source);
    scan_chars(&chars)
}

} // verus!
