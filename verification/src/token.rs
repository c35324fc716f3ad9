use vstd::prelude::*;

verus! {

/// The closed set of token categories: the two bookkeeping categories
/// (`Illegal` for an unrecognized character, `Eof` for end of input),
/// the two run categories (`Ident`, `Int`), the fixed single-character
/// punctuation and operator categories, and the reserved-word categories.
#[derive(Clone, Copy, Debug, PartialEq, Eq, Structural)]
pub enum TokenType {
    Illegal,
    Eof,
    Ident,
    Int,
    Assign,
    Plus,
    Minus,
    Bang,
    Asterisk,
    Slash,
    Lt,
    Gt,
    Comma,
    Semicolon,
    Lparen,
    Rparen,
    Lbrace,
    Rbrace,
    Function,
    Let,
    True,
    False,
    If,
    Else,
    Return,
}

/// A token: a category paired with the exact substring of the input that
/// produced it. Punctuation tokens carry their single character; the
/// end-of-input token carries the empty string.
#[derive(Debug)]
pub struct Token {
    pub token_type: TokenType,
    pub literal: String,
}

/// The category an identifier spelling classifies as: one of the seven
/// reserved words maps to its own category, everything else is `Ident`.
/// Matching is exact and case-sensitive.
pub open spec fn spec_lookup_ident(s: Seq<char>) -> TokenType {
    if s == "fn"@ {
        TokenType::Function
    } else if s == "let"@ {
        TokenType::Let
    } else if s == "if"@ {
        TokenType::If
    } else if s == "else"@ {
        TokenType::Else
    } else if s == "true"@ {
        TokenType::True
    } else if s == "false"@ {
        TokenType::False
    } else if s == "return"@ {
        TokenType::Return
    } else {
        TokenType::Ident
    }
}

/// Character-by-character string comparison, so that equality with each
/// reserved-word spelling is established over the string views.
fn str_eq(a: &str, b: &str) -> (r: bool)
    ensures
        r == (a@ == b@),
{
    let a_len = a.unicode_len();
    let b_len = b.unicode_len();
    if a_len != b_len {
        return false;
    }
    let mut i: usize = 0;
    while i < a_len
        invariant
            a_len == a@.len(),
            a_len == b@.len(),
            0 <= i <= a_len,
            forall|k: int| 0 <= k < i ==> a@[k] == b@[k],
        decreases a_len - i,
    {
        if a.get_char(i) != b.get_char(i) {
            return false;
        }
        i = i + 1;
    }
    proof {
        assert(a@ =~= b@);
    }
    true
}

/// Classifies an identifier: returns the reserved-word category if the
/// spelling matches one of exactly `fn`, `let`, `if`, `else`, `true`,
/// `false`, `return`; otherwise returns `Ident`.
pub fn lookup_ident(identifier: &str) -> (r: TokenType)
    ensures
        r == spec_lookup_ident(identifier@),
{
    if str_eq(identifier, "fn") {
        TokenType::Function
    } else if str_eq(identifier, "let") {
        TokenType::Let
    } else if str_eq(identifier, "if") {
        TokenType::If
    } else if str_eq(identifier, "else") {
        TokenType::Else
    } else if str_eq(identifier, "true") {
        TokenType::True
    } else if str_eq(identifier, "false") {
        TokenType::False
    } else if str_eq(identifier, "return") {
        TokenType::Return
    } else {
        TokenType::Ident
    }
}

} // verus!
