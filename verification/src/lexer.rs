use vstd::prelude::*;

verus! {

use crate::token::Token;
use crate::token::TokenType;
use crate::token::spec_lookup_ident;
use crate::token::lookup_ident;
use vstd::string::StrSliceExecFns;

/// Whether a character is skipped as whitespace between tokens:
/// space, tab, newline or carriage return.
pub open spec fn spec_is_whitespace(c: char) -> bool {
    c == ' ' || c == '\t' || c == '\n' || c == '\r'
}

/// Whether a character has the Unicode `Alphabetic` property, as decided
/// by `char::is_alphabetic`. The property is fixed by the Unicode tables
/// compiled into the standard library, so it is a function of the
/// character alone.
pub uninterp spec fn alphabetic(c: char) -> bool;

/// Relies on `char::is_alphabetic`: returns whether the character has the
/// Unicode `Alphabetic` property, a function of the character alone.
pub assume_specification[ char::is_alphabetic ](c: char) -> (r: bool)
    ensures
        r == alphabetic(c),
;

/// Whether a character starts or continues an identifier: alphabetic or
/// underscore. The whitespace characters are checked away first, so a
/// letter is never one of the four characters that separate tokens.
pub open spec fn spec_is_letter(c: char) -> bool {
    c == '_' || (!spec_is_whitespace(c) && alphabetic(c))
}

/// Whether a character is an ASCII digit.
pub open spec fn spec_is_digit(c: char) -> bool {
    '0' as u32 <= c as u32 && c as u32 <= '9' as u32
}

/// The category of a single-character punctuation or operator token, or
/// `None` if the character is not one of them.
pub open spec fn spec_lookup_punct(c: char) -> Option<TokenType> {
    if c == '=' {
        Some(TokenType::Assign)
    } else if c == '+' {
        Some(TokenType::Plus)
    } else if c == '-' {
        Some(TokenType::Minus)
    } else if c == '{' {
        Some(TokenType::Lbrace)
    } else if c == '}' {
        Some(TokenType::Rbrace)
    } else if c == ',' {
        Some(TokenType::Comma)
    } else if c == ';' {
        Some(TokenType::Semicolon)
    } else if c == '(' {
        Some(TokenType::Lparen)
    } else if c == ')' {
        Some(TokenType::Rparen)
    } else if c == '!' {
        Some(TokenType::Bang)
    } else if c == '*' {
        Some(TokenType::Asterisk)
    } else if c == '/' {
        Some(TokenType::Slash)
    } else if c == '<' {
        Some(TokenType::Lt)
    } else if c == '>' {
        Some(TokenType::Gt)
    } else {
        None
    }
}

/// Whether a character is one of the fixed punctuation/operator characters.
pub open spec fn spec_is_punct(c: char) -> bool {
    spec_lookup_punct(c) is Some
}

/// The index of the first character at or after `i` that is not
/// whitespace, or the end of the input if only whitespace remains.
pub open spec fn spec_skip_whitespace(s: Seq<char>, i: nat) -> nat
    decreases s.len() - i,
{
    if i < s.len() && spec_is_whitespace(s[i as int]) {
        spec_skip_whitespace(s, i + 1)
    } else {
        i
    }
}

/// The end of the maximal run of letter characters starting at `i`: the
/// least index at or after `i` that is past the end or holds a non-letter.
pub open spec fn spec_letter_end(s: Seq<char>, i: nat) -> nat
    decreases s.len() - i,
{
    if i < s.len() && spec_is_letter(s[i as int]) {
        spec_letter_end(s, i + 1)
    } else {
        i
    }
}

/// The end of the maximal run of ASCII digits starting at `i`.
pub open spec fn spec_digit_end(s: Seq<char>, i: nat) -> nat
    decreases s.len() - i,
{
    if i < s.len() && spec_is_digit(s[i as int]) {
        spec_digit_end(s, i + 1)
    } else {
        i
    }
}

/// A token at the specification level: the category together with the
/// literal as a sequence of characters.
#[verifier::ext_equal]
pub struct SpecToken {
    pub token_type: TokenType,
    pub literal: Seq<char>,
}

/// The token that a scan starting at cursor position `pos` produces:
/// whitespace is skipped first; then, in order, end of input, a
/// single-character punctuation token, a maximal letter run classified by
/// the reserved words, a maximal digit run, or a single illegal character.
pub open spec fn spec_token_of(s: Seq<char>, pos: nat) -> SpecToken {
    let i = spec_skip_whitespace(s, pos);
    if i >= s.len() {
        SpecToken { token_type: TokenType::Eof, literal: Seq::<char>::empty() }
    } else {
        match spec_lookup_punct(s[i as int]) {
            Some(tt) => SpecToken { token_type: tt, literal: s.subrange(i as int, i as int + 1) },
            None => {
                if spec_is_letter(s[i as int]) {
                    let j = spec_letter_end(s, i);
                    SpecToken {
                        token_type: spec_lookup_ident(s.subrange(i as int, j as int)),
                        literal: s.subrange(i as int, j as int),
                    }
                } else if spec_is_digit(s[i as int]) {
                    let j = spec_digit_end(s, i);
                    SpecToken { token_type: TokenType::Int, literal: s.subrange(i as int, j as int) }
                } else {
                    SpecToken { token_type: TokenType::Illegal, literal: s.subrange(i as int, i as int + 1) }
                }
            },
        }
    }
}

/// The cursor position after the scan that produces `spec_token_of(s, pos)`:
/// one past a single-character token, at the first character after a run,
/// and at the end of the input once it is exhausted.
pub open spec fn spec_pos_after(s: Seq<char>, pos: nat) -> nat {
    let i = spec_skip_whitespace(s, pos);
    if i >= s.len() {
        i
    } else {
        match spec_lookup_punct(s[i as int]) {
            Some(tt) => i + 1,
            None => {
                if spec_is_letter(s[i as int]) {
                    spec_letter_end(s, i)
                } else if spec_is_digit(s[i as int]) {
                    spec_digit_end(s, i)
                } else {
                    i + 1
                }
            },
        }
    }
}

/// Skipping whitespace never moves the cursor backwards nor past the end
/// of the input, passes only whitespace characters, and stops at the
/// first character that is not whitespace.
pub proof fn lemma_skip_whitespace_bounds(s: Seq<char>, i: nat)
    requires
        i <= s.len(),
    ensures
        i <= spec_skip_whitespace(s, i) <= s.len(),
        forall|k: int| i <= k < spec_skip_whitespace(s, i) ==> spec_is_whitespace(s[k]),
        spec_skip_whitespace(s, i) < s.len() ==> !spec_is_whitespace(
            s[spec_skip_whitespace(s, i) as int],
        ),
    decreases s.len() - i,
{
    if i < s.len() && spec_is_whitespace(s[i as int]) {
        lemma_skip_whitespace_bounds(s, i + 1);
    }
}

/// The maximal letter run starting at `i` covers only letters, ends at
/// the first non-letter, and is non-empty exactly when a letter stands
/// at `i`.
pub proof fn lemma_letter_end_bounds(s: Seq<char>, i: nat)
    requires
        i <= s.len(),
    ensures
        i <= spec_letter_end(s, i) <= s.len(),
        forall|k: int| i <= k < spec_letter_end(s, i) ==> spec_is_letter(s[k]),
        spec_letter_end(s, i) < s.len() ==> !spec_is_letter(s[spec_letter_end(s, i) as int]),
        i < s.len() && spec_is_letter(s[i as int]) ==> spec_letter_end(s, i) > i,
    decreases s.len() - i,
{
    if i < s.len() && spec_is_letter(s[i as int]) {
        lemma_letter_end_bounds(s, i + 1);
    }
}

/// The maximal digit run starting at `i` covers only digits, ends at the
/// first non-digit, and is non-empty exactly when a digit stands at `i`.
pub proof fn lemma_digit_end_bounds(s: Seq<char>, i: nat)
    requires
        i <= s.len(),
    ensures
        i <= spec_digit_end(s, i) <= s.len(),
        forall|k: int| i <= k < spec_digit_end(s, i) ==> spec_is_digit(s[k]),
        spec_digit_end(s, i) < s.len() ==> !spec_is_digit(s[spec_digit_end(s, i) as int]),
        i < s.len() && spec_is_digit(s[i as int]) ==> spec_digit_end(s, i) > i,
    decreases s.len() - i,
{
    if i < s.len() && spec_is_digit(s[i as int]) {
        lemma_digit_end_bounds(s, i + 1);
    }
}

/// A single scan step stays within the input; it advances strictly unless
/// it produced the end-of-input token, which it produces exactly when
/// only whitespace remains, leaving the cursor at the end of the input.
pub proof fn lemma_scan_bounds(s: Seq<char>, pos: nat)
    requires
        pos <= s.len(),
    ensures
        pos <= spec_pos_after(s, pos) <= s.len(),
        spec_token_of(s, pos).token_type == TokenType::Eof <==> spec_skip_whitespace(s, pos)
            == s.len(),
        spec_token_of(s, pos).token_type != TokenType::Eof ==> spec_pos_after(s, pos) > pos,
        spec_token_of(s, pos).token_type == TokenType::Eof ==> spec_pos_after(s, pos) == s.len(),
{
    lemma_skip_whitespace_bounds(s, pos);
    let i = spec_skip_whitespace(s, pos);
    if i < s.len() {
        assert(spec_lookup_punct(s[i as int]) != Some(TokenType::Eof));
        assert(spec_lookup_ident(s.subrange(i as int, spec_letter_end(s, i) as int))
            != TokenType::Eof);
        lemma_letter_end_bounds(s, i);
        lemma_digit_end_bounds(s, i);
    }
}

/// The full token stream from a cursor position: each scan step's token
/// in order, up to and including the first end-of-input token.
pub open spec fn spec_tokens(s: Seq<char>, pos: nat) -> Seq<SpecToken>
    decreases s.len() - pos,
    when pos <= s.len()
    via spec_tokens_decreases
{
    let t = spec_token_of(s, pos);
    if t.token_type == TokenType::Eof {
        seq![t]
    } else {
        seq![t] + spec_tokens(s, spec_pos_after(s, pos))
    }
}

#[via_fn]
proof fn spec_tokens_decreases(s: Seq<char>, pos: nat) {
    lemma_scan_bounds(s, pos);
}

/// The scanner. It owns the input text and a cursor; each call of
/// `next_token` classifies exactly one token and advances the cursor
/// past it.
#[derive(Debug)]
pub struct Lexer {
    /// input given to the lexer
    input: String,
    /// index of the current character
    position: usize,
    /// index of the next character
    read_position: usize,
    /// the current character, or the null sentinel once input is exhausted
    ch: char,
}

impl Lexer {
    /// The input text the scanner was constructed over, as characters.
    pub closed spec fn text(self) -> Seq<char> {
        self.input@
    }

    /// The cursor: the index of the current character.
    pub closed spec fn cursor(self) -> nat {
        self.position as nat
    }

    /// Cursor well-formedness: the next-character index is one past the
    /// current one, the cursor never passes the end of the input, and the
    /// cached character is the one under the cursor, or the null sentinel
    /// once the input is exhausted.
    pub closed spec fn wf(self) -> bool {
        &&& self.input@.len() < usize::MAX
        &&& self.position <= self.input@.len()
        &&& self.read_position == self.position + 1
        &&& self.ch == (if self.position < self.input@.len() {
            self.input@[self.position as int]
        } else {
            '\0'
        })
    }

    /// Constructs a scanner over the given input with the first character
    /// already loaded; empty input starts in the exhausted state.
    pub fn new(input: &str) -> (r: Lexer)
        requires
            input@.len() < usize::MAX,
        ensures
            r.wf(),
            r.text() == input@,
            r.cursor() == 0,
    {
        let mut lexer = Lexer {
            input: input.to_owned(),
            position: 0,
            read_position: 0,
            ch: '\0',
        };
        lexer.read_char();
        lexer
    }

    /// Advances the cursor by one character, loading the next character or
    /// the null sentinel once the input is exhausted.
    fn read_char(&mut self)
        requires
            old(self).input@.len() < usize::MAX,
            old(self).read_position <= old(self).input@.len(),
        ensures
            final(self).input@ == old(self).input@,
            final(self).position == old(self).read_position,
            final(self).read_position == old(self).read_position + 1,
            final(self).ch == (if final(self).position < final(self).input@.len() {
                final(self).input@[final(self).position as int]
            } else {
                '\0'
            }),
    {
        let n = self.input.as_str().unicode_len();
        if self.read_position >= n {
            self.ch = '\0';
        } else {
            self.ch = self.input.as_str().get_char(self.read_position);
        }
        self.position = self.read_position;
        self.read_position = self.read_position + 1;
    }

    /// Whether a character starts or continues an identifier.
    fn is_letter(literal: char) -> (r: bool)
        ensures
            r == spec_is_letter(literal),
    {
        literal == '_' || (!Lexer::is_whitespace(literal) && literal.is_alphabetic())
    }

    /// Whether a character is an ASCII digit.
    fn is_digit(literal: char) -> (r: bool)
        ensures
            r == spec_is_digit(literal),
    {
        let u = literal as u32;
        ('0' as u32) <= u && u <= ('9' as u32)
    }

    /// Whether a character separates tokens as whitespace.
    fn is_whitespace(literal: char) -> (r: bool)
        ensures
            r == spec_is_whitespace(literal),
    {
        literal == ' ' || literal == '\t' || literal == '\n' || literal == '\r'
    }

    /// The category of a single-character punctuation or operator token.
    fn lookup_punct(literal: char) -> (r: Option<TokenType>)
        ensures
            r == spec_lookup_punct(literal),
    {
        match literal {
            '=' => Some(TokenType::Assign),
            '+' => Some(TokenType::Plus),
            '-' => Some(TokenType::Minus),
            '{' => Some(TokenType::Lbrace),
            '}' => Some(TokenType::Rbrace),
            ',' => Some(TokenType::Comma),
            ';' => Some(TokenType::Semicolon),
            '(' => Some(TokenType::Lparen),
            ')' => Some(TokenType::Rparen),
            '!' => Some(TokenType::Bang),
            '*' => Some(TokenType::Asterisk),
            '/' => Some(TokenType::Slash),
            '<' => Some(TokenType::Lt),
            '>' => Some(TokenType::Gt),
            _ => None,
        }
    }

    /// Builds a token from a category and its literal text.
    fn new_token(token_type: TokenType, literal: String) -> (t: Token)
        ensures
            t.token_type == token_type,
            t.literal@ == literal@,
    {
        Token { token_type, literal }
    }

    /// Consumes the maximal run of letter characters starting at the
    /// cursor and returns it; the cursor ends at the first non-letter.
    fn read_identifier(&mut self) -> (r: String)
        requires
            old(self).wf(),
        ensures
            final(self).wf(),
            final(self).input@ == old(self).input@,
            final(self).position == spec_letter_end(old(self).input@, old(self).position as nat),
            r@ == old(self).input@.subrange(
                old(self).position as int,
                final(self).position as int,
            ),
    {
        let position = self.position;
        let n = self.input.as_str().unicode_len();
        while self.position < n && Lexer::is_letter(self.ch)
            invariant
                self.wf(),
                self.input@ == old(self).input@,
                n == self.input@.len(),
                position <= self.position,
                spec_letter_end(self.input@, position as nat) == spec_letter_end(
                    self.input@,
                    self.position as nat,
                ),
            decreases n - self.position,
        {
            self.read_char();
        }
        self.input.as_str().substring_char(position, self.position).to_owned()
    }

    /// Consumes the maximal run of ASCII digits starting at the cursor and
    /// returns it; the cursor ends at the first non-digit.
    fn read_number(&mut self) -> (r: String)
        requires
            old(self).wf(),
        ensures
            final(self).wf(),
            final(self).input@ == old(self).input@,
            final(self).position == spec_digit_end(old(self).input@, old(self).position as nat),
            r@ == old(self).input@.subrange(
                old(self).position as int,
                final(self).position as int,
            ),
    {
        let position = self.position;
        let n = self.input.as_str().unicode_len();
        while self.position < n && Lexer::is_digit(self.ch)
            invariant
                self.wf(),
                self.input@ == old(self).input@,
                n == self.input@.len(),
                position <= self.position,
                spec_digit_end(self.input@, position as nat) == spec_digit_end(
                    self.input@,
                    self.position as nat,
                ),
            decreases n - self.position,
        {
            self.read_char();
        }
        self.input.as_str().substring_char(position, self.position).to_owned()
    }

    /// Produces the next token and advances the cursor past it. Whitespace
    /// before the token is skipped; once the input is exhausted every call
    /// returns the end-of-input token with an empty literal and leaves the
    /// cursor where it is.
    pub fn next_token(&mut self) -> (r: Token)
        requires
            old(self).wf(),
        ensures
            final(self).wf(),
            final(self).text() == old(self).text(),
            final(self).cursor() == spec_pos_after(old(self).text(), old(self).cursor()),
            r.token_type == spec_token_of(old(self).text(), old(self).cursor()).token_type,
            r.literal@ == spec_token_of(old(self).text(), old(self).cursor()).literal,
    {
        let ghost s = self.input@;
        let ghost pos0 = self.position as nat;
        // skip whitespace
        while Lexer::is_whitespace(self.ch)
            invariant
                self.wf(),
                self.input@ == s,
                spec_skip_whitespace(s, pos0) == spec_skip_whitespace(s, self.position as nat),
            decreases s.len() - self.position,
        {
            self.read_char();
        }
        proof {
            assert(self.position as nat == spec_skip_whitespace(s, pos0));
        }
        let n = self.input.as_str().unicode_len();
        if self.position >= n {
            // end of input: emit the end marker and do not advance further
            return Lexer::new_token(TokenType::Eof, String::new());
        }
        if let Some(token_type) = Lexer::lookup_punct(self.ch) {
            let literal = self.input.as_str().substring_char(
                self.position,
                self.position + 1,
            ).to_owned();
            self.read_char();
            return Lexer::new_token(token_type, literal);
        }
        if Lexer::is_letter(self.ch) {
            let literal = self.read_identifier();
            let token_type = lookup_ident(literal.as_str());
            return Token { token_type, literal };
        }
        if Lexer::is_digit(self.ch) {
            let literal = self.read_number();
            return Token { token_type: TokenType::Int, literal };
        }
        let literal = self.input.as_str().substring_char(
            self.position,
            self.position + 1,
        ).to_owned();
        self.read_char();
        Lexer::new_token(TokenType::Illegal, literal)
    }
}

} // verus!
