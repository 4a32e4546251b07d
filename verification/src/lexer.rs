//! The tokens of the expression language and the scanner that produces them.
use vstd::prelude::*;
use crate::text::{chars_of, str_equal, string_from_chars, concat2};

verus! {

/// Whether `char::is_alphabetic` holds of a character (Unicode `Alphabetic`).
pub uninterp spec fn char_is_alphabetic(c: char) -> bool;

/// Whether `char::is_numeric` holds of a character (Unicode numeric categories).
pub uninterp spec fn char_is_numeric(c: char) -> bool;

/// Whether `c` is alphabetic.
///
/// Calls `char::is_alphabetic`; the contract claims that the result is a function of
/// `c` alone, named `char_is_alphabetic` (Unicode's table is not restated), and, as
/// the documentation gives it, that among ASCII characters exactly the letters are
/// alphabetic.
#[verifier::external_body]
pub(crate) fn is_alphabetic(c: char) -> (b: bool)
    ensures
        b == char_is_alphabetic(c),
        (c as u32) < 128 ==> (b <==> ('a' <= c <= 'z' || 'A' <= c <= 'Z')),
{
    c.is_alphabetic()
}

/// Whether `c` is numeric.
///
/// Calls `char::is_numeric`; the contract claims that the result is a function of
/// `c` alone, named `char_is_numeric` (Unicode's table is not restated), and, as the
/// documentation gives it, that among ASCII characters exactly the digits are
/// numeric.
#[verifier::external_body]
pub(crate) fn is_numeric(c: char) -> (b: bool)
    ensures
        b == char_is_numeric(c),
        (c as u32) < 128 ==> (b <==> ('0' <= c <= '9')),
{
    c.is_numeric()
}

/// An ASCII decimal digit.
pub open spec fn is_digit(c: char) -> bool {
    '0' <= c <= '9'
}

/// A character that may continue a name: alphanumeric (alphabetic or numeric) or `_`.
pub open spec fn is_word_char(c: char) -> bool {
    char_is_alphabetic(c) || char_is_numeric(c) || c == '_'
}

/// An operator of the expression language.
#[derive(Debug, Clone, Copy, PartialEq, Eq, Structural)]
pub enum Op {
    Eq,
    Ne,
    Lt,
    Gt,
    Le,
    Ge,
    And,
    Or,
    Not,
    Add,
    Sub,
    Mul,
    Div,
}

/// A token of the expression language.
#[derive(Debug)]
pub enum Token {
    /// A number literal, by its text (digits with at most one `.`).
    Number(String),
    StringLit(String),
    Bool(bool),
    Ident(String),
    /// `$result`.
    ResultVar,
    Op(Op),
    LParen,
    RParen,
}

/// The model of a token.
pub enum TokenV {
    Number(Seq<char>),
    StringLit(Seq<char>),
    Bool(bool),
    Ident(Seq<char>),
    ResultVar,
    Op(Op),
    LParen,
    RParen,
}

impl View for Token {
    type V = TokenV;

    open spec fn view(&self) -> TokenV {
        match self {
            Token::Number(s) => TokenV::Number(s@),
            Token::StringLit(s) => TokenV::StringLit(s@),
            Token::Bool(b) => TokenV::Bool(*b),
            Token::Ident(s) => TokenV::Ident(s@),
            Token::ResultVar => TokenV::ResultVar,
            Token::Op(o) => TokenV::Op(*o),
            Token::LParen => TokenV::LParen,
            Token::RParen => TokenV::RParen,
        }
    }
}

/// The end of the run of name characters that starts at `i`.
pub open spec fn word_end(cs: Seq<char>, i: int) -> int
    decreases cs.len() - i,
{
    if 0 <= i < cs.len() && is_word_char(cs[i]) {
        word_end(cs, i + 1)
    } else {
        i
    }
}

/// The position of the first `'` at or after `i`, or the end of the text.
pub open spec fn quote_end(cs: Seq<char>, i: int) -> int
    decreases cs.len() - i,
{
    if 0 <= i < cs.len() && cs[i] != '\'' {
        quote_end(cs, i + 1)
    } else {
        i
    }
}

/// The end of a number literal that continues at `i`: digits, and one `.` unless one
/// was already taken.
pub open spec fn number_end(cs: Seq<char>, i: int, has_dot: bool) -> int
    decreases cs.len() - i,
{
    if 0 <= i < cs.len() && (is_digit(cs[i]) || (cs[i] == '.' && !has_dot)) {
        number_end(cs, i + 1, has_dot || cs[i] == '.')
    } else {
        i
    }
}

proof fn lemma_word_end(cs: Seq<char>, i: int)
    requires
        0 <= i <= cs.len(),
    ensures
        i <= word_end(cs, i) <= cs.len(),
    decreases cs.len() - i,
{
    if i < cs.len() && is_word_char(cs[i]) {
        lemma_word_end(cs, i + 1);
    }
}

proof fn lemma_quote_end(cs: Seq<char>, i: int)
    requires
        0 <= i <= cs.len(),
    ensures
        i <= quote_end(cs, i) <= cs.len(),
    decreases cs.len() - i,
{
    if i < cs.len() && cs[i] != '\'' {
        lemma_quote_end(cs, i + 1);
    }
}

proof fn lemma_number_end(cs: Seq<char>, i: int, has_dot: bool)
    requires
        0 <= i <= cs.len(),
    ensures
        i <= number_end(cs, i, has_dot) <= cs.len(),
    decreases cs.len() - i,
{
    if i < cs.len() && (is_digit(cs[i]) || (cs[i] == '.' && !has_dot)) {
        lemma_number_end(cs, i + 1, has_dot || cs[i] == '.');
    }
}

/// The word `result`.
pub open spec fn result_word() -> Seq<char> {
    seq!['r', 'e', 's', 'u', 'l', 't']
}

/// The token that a word stands for: a boolean, a logical operator, or a name.
pub open spec fn word_token(w: Seq<char>) -> TokenV {
    if w == seq!['t', 'r', 'u', 'e'] {
        TokenV::Bool(true)
    } else if w == seq!['f', 'a', 'l', 's', 'e'] {
        TokenV::Bool(false)
    } else if w == seq!['a', 'n', 'd'] {
        TokenV::Op(Op::And)
    } else if w == seq!['o', 'r'] {
        TokenV::Op(Op::Or)
    } else if w == seq!['n', 'o', 't'] {
        TokenV::Op(Op::Not)
    } else {
        TokenV::Ident(w)
    }
}

/// Whether the character after position `i` is `c`.
pub open spec fn next_is(cs: Seq<char>, i: int, c: char) -> bool {
    i + 1 < cs.len() && cs[i + 1] == c
}

/// One scanning step at position `i` (within the text): the token found there, if
/// any, and the position where scanning goes on. Blanks and characters outside the
/// language are skipped.
pub open spec fn lex_step(cs: Seq<char>, i: int) -> (Option<TokenV>, int) {
    let c = cs[i];
    if c == ' ' || c == '\t' || c == '\n' || c == '\r' {
        (None, i + 1)
    } else if c == '(' {
        (Some(TokenV::LParen), i + 1)
    } else if c == ')' {
        (Some(TokenV::RParen), i + 1)
    } else if c == '\'' {
        let k = quote_end(cs, i + 1);
        (Some(TokenV::StringLit(cs.subrange(i + 1, k))), if k < cs.len() {
            k + 1
        } else {
            k
        })
    } else if c == '=' && next_is(cs, i, '=') {
        (Some(TokenV::Op(Op::Eq)), i + 2)
    } else if c == '!' && next_is(cs, i, '=') {
        (Some(TokenV::Op(Op::Ne)), i + 2)
    } else if c == '<' && next_is(cs, i, '=') {
        (Some(TokenV::Op(Op::Le)), i + 2)
    } else if c == '>' && next_is(cs, i, '=') {
        (Some(TokenV::Op(Op::Ge)), i + 2)
    } else if c == '<' {
        (Some(TokenV::Op(Op::Lt)), i + 1)
    } else if c == '>' {
        (Some(TokenV::Op(Op::Gt)), i + 1)
    } else if c == '+' {
        (Some(TokenV::Op(Op::Add)), i + 1)
    } else if c == '-' {
        (Some(TokenV::Op(Op::Sub)), i + 1)
    } else if c == '*' {
        (Some(TokenV::Op(Op::Mul)), i + 1)
    } else if c == '/' {
        (Some(TokenV::Op(Op::Div)), i + 1)
    } else if c == '$' {
        let k = word_end(cs, i + 1);
        let name = cs.subrange(i + 1, k);
        (Some(if name == result_word() {
            TokenV::ResultVar
        } else {
            TokenV::Ident(seq!['$'] + name)
        }), k)
    } else if is_digit(c) || (c == '.' && i + 1 < cs.len() && is_digit(cs[i + 1])) {
        let k = number_end(cs, i, false);
        (Some(TokenV::Number(cs.subrange(i, k))), k)
    } else if char_is_alphabetic(c) || c == '_' {
        let k = word_end(cs, i);
        (Some(word_token(cs.subrange(i, k))), k)
    } else {
        (None, i + 1)
    }
}

/// Each step makes progress and stays within the text.
pub proof fn lemma_lex_step(cs: Seq<char>, i: int)
    requires
        0 <= i < cs.len(),
    ensures
        i < lex_step(cs, i).1 <= cs.len(),
{
    lemma_word_end(cs, i + 1);
    lemma_quote_end(cs, i + 1);
    lemma_number_end(cs, i, false);
    lemma_word_end(cs, i);
    let c = cs[i];
    if is_digit(c) || (c == '.' && i + 1 < cs.len() && is_digit(cs[i + 1])) {
        assert(number_end(cs, i, false) == number_end(cs, i + 1, c == '.'));
        lemma_number_end(cs, i + 1, c == '.');
    }
    if char_is_alphabetic(c) || c == '_' {
        assert(word_end(cs, i) == word_end(cs, i + 1));
        lemma_word_end(cs, i + 1);
    }
}

/// The tokens of the text from position `i` on.
pub open spec fn lex_from(cs: Seq<char>, i: int) -> Seq<TokenV>
    decreases cs.len() - i,
{
    if 0 <= i < cs.len() {
        let (t, j) = lex_step(cs, i);
        proof {
            lemma_lex_step(cs, i);
        }
        match t {
            Some(tok) => seq![tok] + lex_from(cs, j),
            None => lex_from(cs, j),
        }
    } else {
        Seq::empty()
    }
}

/// The tokens of a text.
pub open spec fn tokenize_spec(s: Seq<char>) -> Seq<TokenV> {
    lex_from(s, 0)
}

/// The models of a list of tokens.
pub open spec fn tokens_view(ts: Seq<Token>) -> Seq<TokenV> {
    ts.map_values(|t: Token| t@)
}

/// Whether `c` continues a name.
fn word_char(c: char) -> (b: bool)
    ensures
        b == is_word_char(c),
{
    is_alphabetic(c) || is_numeric(c) || c == '_'
}

/// The end of the run of name characters from `i`.
fn scan_word(cs: &Vec<char>, i: usize) -> (k: usize)
    requires
        i <= cs@.len(),
    ensures
        k == word_end(cs@, i as int),
{
    let mut k = i;
    while k < cs.len() && word_char(cs[k])
        invariant
            i <= k <= cs@.len(),
            word_end(cs@, i as int) == word_end(cs@, k as int),
        decreases cs@.len() - k,
    {
        k = k + 1;
    }
    k
}

/// The position of the first `'` from `i`, or the end.
fn scan_quote(cs: &Vec<char>, i: usize) -> (k: usize)
    requires
        i <= cs@.len(),
    ensures
        k == quote_end(cs@, i as int),
{
    let mut k = i;
    while k < cs.len() && cs[k] != '\''
        invariant
            i <= k <= cs@.len(),
            quote_end(cs@, i as int) == quote_end(cs@, k as int),
        decreases cs@.len() - k,
    {
        k = k + 1;
    }
    k
}

/// The end of a number literal from `i`.
fn scan_number(cs: &Vec<char>, i: usize) -> (k: usize)
    requires
        i <= cs@.len(),
    ensures
        k == number_end(cs@, i as int, false),
{
    let mut k = i;
    let mut has_dot = false;
    while k < cs.len() && (('0' <= cs[k] && cs[k] <= '9') || (cs[k] == '.' && !has_dot))
        invariant
            i <= k <= cs@.len(),
            number_end(cs@, i as int, false) == number_end(cs@, k as int, has_dot),
        decreases cs@.len() - k,
    {
        if cs[k] == '.' {
            has_dot = true;
        }
        k = k + 1;
    }
    k
}

/// The string of the characters `cs[from..to]`.
fn slice_string(cs: &Vec<char>, from: usize, to: usize) -> (s: String)
    requires
        from <= to <= cs@.len(),
    ensures
        s@ == cs@.subrange(from as int, to as int),
{
    string_from_chars(&cs.as_slice()[from..to])
}

/// The token for a scanned word.
fn word_to_token(w: String) -> (t: Token)
    ensures
        t@ == word_token(w@),
{
    proof {
        reveal_strlit("true");
        reveal_strlit("false");
        reveal_strlit("and");
        reveal_strlit("or");
        reveal_strlit("not");
        assert("true"@ =~= seq!['t', 'r', 'u', 'e']);
        assert("false"@ =~= seq!['f', 'a', 'l', 's', 'e']);
        assert("and"@ =~= seq!['a', 'n', 'd']);
        assert("or"@ =~= seq!['o', 'r']);
        assert("not"@ =~= seq!['n', 'o', 't']);
    }
    if str_equal(w.as_str(), "true") {
        Token::Bool(true)
    } else if str_equal(w.as_str(), "false") {
        Token::Bool(false)
    } else if str_equal(w.as_str(), "and") {
        Token::Op(Op::And)
    } else if str_equal(w.as_str(), "or") {
        Token::Op(Op::Or)
    } else if str_equal(w.as_str(), "not") {
        Token::Op(Op::Not)
    } else {
        Token::Ident(w)
    }
}

/// One scanning step at `i`.
fn scan_step(cs: &Vec<char>, i: usize) -> (r: (Option<Token>, usize))
    requires
        i < cs@.len(),
    ensures
        r.1 == lex_step(cs@, i as int).1,
        match (r.0, lex_step(cs@, i as int).0) {
            (Some(t), Some(tv)) => t@ == tv,
            (None, None) => true,
            _ => false,
        },
{
    proof {
        lemma_lex_step(cs@, i as int);
    }
    let c = cs[i];
    let n = cs.len();
    if c == ' ' || c == '\t' || c == '\n' || c == '\r' {
        (None, i + 1)
    } else if c == '(' {
        (Some(Token::LParen), i + 1)
    } else if c == ')' {
        (Some(Token::RParen), i + 1)
    } else if c == '\'' {
        let k = scan_quote(cs, i + 1);
        proof {
            lemma_quote_end(cs@, i + 1);
        }
        let s = slice_string(cs, i + 1, k);
        (Some(Token::StringLit(s)), if k < n {
            k + 1
        } else {
            k
        })
    } else if c == '=' && i + 1 < n && cs[i + 1] == '=' {
        (Some(Token::Op(Op::Eq)), i + 2)
    } else if c == '!' && i + 1 < n && cs[i + 1] == '=' {
        (Some(Token::Op(Op::Ne)), i + 2)
    } else if c == '<' && i + 1 < n && cs[i + 1] == '=' {
        (Some(Token::Op(Op::Le)), i + 2)
    } else if c == '>' && i + 1 < n && cs[i + 1] == '=' {
        (Some(Token::Op(Op::Ge)), i + 2)
    } else if c == '<' {
        (Some(Token::Op(Op::Lt)), i + 1)
    } else if c == '>' {
        (Some(Token::Op(Op::Gt)), i + 1)
    } else if c == '+' {
        (Some(Token::Op(Op::Add)), i + 1)
    } else if c == '-' {
        (Some(Token::Op(Op::Sub)), i + 1)
    } else if c == '*' {
        (Some(Token::Op(Op::Mul)), i + 1)
    } else if c == '/' {
        (Some(Token::Op(Op::Div)), i + 1)
    } else if c == '$' {
        let k = scan_word(cs, i + 1);
        proof {
            lemma_word_end(cs@, i + 1);
            reveal_strlit("result");
            reveal_strlit("$");
            assert("result"@ =~= result_word());
        }
        let name = slice_string(cs, i + 1, k);
        if str_equal(name.as_str(), "result") {
            (Some(Token::ResultVar), k)
        } else {
            let full = concat2("$", name.as_str());
            assert(full@ =~= seq!['$'] + name@);
            (Some(Token::Ident(full)), k)
        }
    } else if ('0' <= c && c <= '9') || (c == '.' && i + 1 < n && '0' <= cs[i + 1] && cs[i + 1] <= '9') {
        let k = scan_number(cs, i);
        proof {
            lemma_number_end(cs@, i as int, false);
        }
        let s = slice_string(cs, i, k);
        (Some(Token::Number(s)), k)
    } else if is_alphabetic(c) || c == '_' {
        let k = scan_word(cs, i);
        proof {
            lemma_word_end(cs@, i as int);
        }
        let w = slice_string(cs, i, k);
        (Some(word_to_token(w)), k)
    } else {
        (None, i + 1)
    }
}

/// The tokens of an expression text. Blanks and characters outside the language are
/// skipped; a string literal without its closing quote runs to the end.
pub fn tokenize(input: &str) -> (ts: Vec<Token>)
    ensures
        tokens_view(ts@) == tokenize_spec(input@),
{
    let cs = chars_of(input);
    let mut tokens: Vec<Token> = Vec::new();
    let mut i: usize = 0;
    while i < cs.len()
        invariant
            i <= cs@.len(),
            cs@ == input@,
            tokens_view(tokens@) + lex_from(cs@, i as int) == tokenize_spec(input@),
        decreases cs@.len() - i,
    {
        let ghost before = tokens_view(tokens@);
        let (t, j) = scan_step(&cs, i);
        proof {
            lemma_lex_step(cs@, i as int);
        }
        match t {
            Some(tok) => {
                tokens.push(tok);
                proof {
                    assert(tokens_view(tokens@) =~= before.push(tokens@.last()@));
                    assert(tokens_view(tokens@) + lex_from(cs@, j as int) =~= before + lex_from(
                        cs@,
                        i as int,
                    ));
                }
            },
            None => {},
        }
        i = j;
    }
    assert(tokens_view(tokens@) =~= tokenize_spec(input@));
    tokens
}

} // verus!

verus! {

/// A text has at most as many tokens as characters.
pub proof fn lemma_lex_len(cs: Seq<char>, i: int)
    requires
        0 <= i <= cs.len(),
    ensures
        lex_from(cs, i).len() <= cs.len() - i,
    decreases cs.len() - i,
{
    if i < cs.len() {
        lemma_lex_step(cs, i);
        lemma_lex_len(cs, lex_step(cs, i).1);
    }
}

} // verus!
