use vstd::prelude::*;

verus! {

use crate::token::TokenType;
use crate::lexer::spec_is_digit;
use crate::lexer::spec_is_letter;
use crate::lexer::spec_is_whitespace;
use crate::lexer::spec_lookup_punct;
use crate::lexer::spec_letter_end;
use crate::lexer::spec_digit_end;
use crate::lexer::spec_skip_whitespace;
use crate::lexer::spec_token_of;
use crate::lexer::spec_pos_after;
use crate::lexer::spec_tokens;
use crate::lexer::lemma_skip_whitespace_bounds;
use crate::lexer::lemma_letter_end_bounds;
use crate::lexer::lemma_digit_end_bounds;
use crate::lexer::lemma_scan_bounds;

/// Totality: from any valid cursor position the token stream is finite,
/// its last token is the end-of-input token, and no earlier token is.
/// Its length is therefore the number of lexical runs plus one, so
/// repeated scanning terminates in exactly that many steps.
pub proof fn lemma_totality(s: Seq<char>, pos: nat)
    requires
        pos <= s.len(),
    ensures
        spec_tokens(s, pos).len() >= 1,
        spec_tokens(s, pos).last().token_type == TokenType::Eof,
        forall|k: int|
            0 <= k < spec_tokens(s, pos).len() - 1 ==> spec_tokens(s, pos)[k].token_type
                != TokenType::Eof,
    decreases s.len() - pos,
{
    lemma_scan_bounds(s, pos);
    let t = spec_token_of(s, pos);
    if t.token_type != TokenType::Eof {
        lemma_totality(s, spec_pos_after(s, pos));
        let rest = spec_tokens(s, spec_pos_after(s, pos));
        assert forall|k: int| 0 <= k < spec_tokens(s, pos).len() - 1 implies spec_tokens(s, pos)[k].token_type
            != TokenType::Eof by {
            if k >= 1 {
                assert(spec_tokens(s, pos)[k] == rest[k - 1]);
            }
        }
    }
}

/// Idempotence at end of input: a scan that produced the end-of-input
/// token carried an empty literal and left the cursor at the end of the
/// input, and every scan from there produces the same token again without
/// moving the cursor.
pub proof fn lemma_end_idempotent(s: Seq<char>, pos: nat)
    requires
        pos <= s.len(),
        spec_token_of(s, pos).token_type == TokenType::Eof,
    ensures
        spec_token_of(s, pos).literal == Seq::<char>::empty(),
        spec_pos_after(s, pos) == s.len(),
        spec_token_of(s, spec_pos_after(s, pos)) == spec_token_of(s, pos),
        spec_pos_after(s, spec_pos_after(s, pos)) == spec_pos_after(s, pos),
{
    lemma_scan_bounds(s, pos);
    assert(spec_skip_whitespace(s, s.len() as nat) == s.len());
}

/// Whether a category is one that a letter run classifies as: a plain
/// identifier or one of the reserved words.
pub open spec fn spec_is_word(tt: TokenType) -> bool {
    ||| tt == TokenType::Ident
    ||| tt == TokenType::Function
    ||| tt == TokenType::Let
    ||| tt == TokenType::True
    ||| tt == TokenType::False
    ||| tt == TokenType::If
    ||| tt == TokenType::Else
    ||| tt == TokenType::Return
}

/// Maximal munch: an integer token's literal is a non-empty run of
/// digits and the character the cursor ends on is not a digit, and an
/// identifier or reserved-word token's literal is a non-empty run of
/// letters and the character the cursor ends on is not a letter. A run
/// is never split into shorter tokens.
pub proof fn lemma_maximal_munch(s: Seq<char>, pos: nat)
    requires
        pos <= s.len(),
    ensures
        spec_token_of(s, pos).token_type == TokenType::Int ==> ({
            let lit = spec_token_of(s, pos).literal;
            let e = spec_pos_after(s, pos);
            &&& lit.len() >= 1
            &&& forall|k: int| 0 <= k < lit.len() ==> spec_is_digit(lit[k])
            &&& e < s.len() ==> !spec_is_digit(s[e as int])
        }),
        spec_is_word(spec_token_of(s, pos).token_type) ==> ({
            let lit = spec_token_of(s, pos).literal;
            let e = spec_pos_after(s, pos);
            &&& lit.len() >= 1
            &&& forall|k: int| 0 <= k < lit.len() ==> spec_is_letter(lit[k])
            &&& e < s.len() ==> !spec_is_letter(s[e as int])
        }),
{
    lemma_skip_whitespace_bounds(s, pos);
    let i = spec_skip_whitespace(s, pos);
    if i < s.len() {
        lemma_letter_end_bounds(s, i);
        lemma_digit_end_bounds(s, i);
        match spec_lookup_punct(s[i as int]) {
            Some(tt) => {
                assert(tt != TokenType::Int && !spec_is_word(tt));
            },
            None => {
                if spec_is_letter(s[i as int]) {
                    let j = spec_letter_end(s, i);
                    let lit = s.subrange(i as int, j as int);
                    assert(spec_is_word(spec_token_of(s, pos).token_type));
                    assert(forall|k: int| 0 <= k < lit.len() ==> spec_is_letter(#[trigger] lit[k]));
                } else if spec_is_digit(s[i as int]) {
                    let j = spec_digit_end(s, i);
                    let lit = s.subrange(i as int, j as int);
                    assert(forall|k: int| 0 <= k < lit.len() ==> spec_is_digit(#[trigger] lit[k]));
                }
            },
        }
    }
}

/// Inserting a character at index `w` shifts a whitespace skip that
/// starts at or after `w` by exactly one.
proof fn lemma_skip_whitespace_shift(s: Seq<char>, c: char, w: nat, p: nat)
    requires
        w <= p <= s.len(),
    ensures
        spec_skip_whitespace(s.insert(w as int, c), (p + 1) as nat) == spec_skip_whitespace(s, p)
            + 1,
    decreases s.len() - p,
{
    let s2 = s.insert(w as int, c);
    s.insert_ensures(w as int, c);
    if p < s.len() && spec_is_whitespace(s[p as int]) {
        assert(s2[p as int + 1] == s[p as int]);
        lemma_skip_whitespace_shift(s, c, w, p + 1);
    } else {
        if p < s.len() {
            assert(s2[p as int + 1] == s[p as int]);
        }
    }
}

/// Inserting a character at index `w` shifts a letter run that starts at
/// or after `w` by exactly one.
proof fn lemma_letter_end_shift(s: Seq<char>, c: char, w: nat, p: nat)
    requires
        w <= p <= s.len(),
    ensures
        spec_letter_end(s.insert(w as int, c), (p + 1) as nat) == spec_letter_end(s, p) + 1,
    decreases s.len() - p,
{
    let s2 = s.insert(w as int, c);
    s.insert_ensures(w as int, c);
    lemma_letter_end_bounds(s, p);
    if p < s.len() && spec_is_letter(s[p as int]) {
        assert(s2[p as int + 1] == s[p as int]);
        lemma_letter_end_shift(s, c, w, p + 1);
    } else {
        if p < s.len() {
            assert(s2[p as int + 1] == s[p as int]);
        }
    }
}

/// Inserting a character at index `w` shifts a digit run that starts at
/// or after `w` by exactly one.
proof fn lemma_digit_end_shift(s: Seq<char>, c: char, w: nat, p: nat)
    requires
        w <= p <= s.len(),
    ensures
        spec_digit_end(s.insert(w as int, c), (p + 1) as nat) == spec_digit_end(s, p) + 1,
    decreases s.len() - p,
{
    let s2 = s.insert(w as int, c);
    s.insert_ensures(w as int, c);
    lemma_digit_end_bounds(s, p);
    if p < s.len() && spec_is_digit(s[p as int]) {
        assert(s2[p as int + 1] == s[p as int]);
        lemma_digit_end_shift(s, c, w, p + 1);
    } else {
        if p < s.len() {
            assert(s2[p as int + 1] == s[p as int]);
        }
    }
}

/// A scan that starts at or after the insertion point sees the same
/// token, one position later.
proof fn lemma_scan_shift(s: Seq<char>, c: char, w: nat, p: nat)
    requires
        w <= p <= s.len(),
    ensures
        spec_token_of(s.insert(w as int, c), (p + 1) as nat) == spec_token_of(s, p),
        spec_pos_after(s.insert(w as int, c), (p + 1) as nat) == spec_pos_after(s, p) + 1,
{
    let s2 = s.insert(w as int, c);
    s.insert_ensures(w as int, c);
    lemma_skip_whitespace_shift(s, c, w, p);
    lemma_skip_whitespace_bounds(s, p);
    let i = spec_skip_whitespace(s, p);
    let i2 = spec_skip_whitespace(s2, (p + 1) as nat);
    if i == s.len() {
        assert(spec_token_of(s2, (p + 1) as nat) =~~= spec_token_of(s, p));
    } else {
        lemma_letter_end_bounds(s, i);
        lemma_digit_end_bounds(s, i);
        assert(s2[i as int + 1] == s[i as int]);
        match spec_lookup_punct(s[i as int]) {
            Some(tt) => {
                assert(s2.subrange(i2 as int, i2 as int + 1) =~= s.subrange(i as int, i as int + 1));
            },
            None => {
                if spec_is_letter(s[i as int]) {
                    lemma_letter_end_shift(s, c, w, i);
                    let j = spec_letter_end(s, i);
                    assert forall|k: int| i <= k < j implies s2[k + 1] == s[k] by {}
                    assert(s2.subrange(i2 as int, j as int + 1) =~= s.subrange(i as int, j as int));
                } else if spec_is_digit(s[i as int]) {
                    lemma_digit_end_shift(s, c, w, i);
                    let j = spec_digit_end(s, i);
                    assert forall|k: int| i <= k < j implies s2[k + 1] == s[k] by {}
                    assert(s2.subrange(i2 as int, j as int + 1) =~= s.subrange(i as int, j as int));
                } else {
                    assert(s2.subrange(i2 as int, i2 as int + 1) =~= s.subrange(i as int, i as int + 1));
                }
            },
        }
        assert(spec_token_of(s2, (p + 1) as nat) =~~= spec_token_of(s, p));
    }
}

/// A stream that starts at or after the insertion point is unchanged,
/// read one position later.
proof fn lemma_tokens_shift(s: Seq<char>, c: char, w: nat, p: nat)
    requires
        w <= p <= s.len(),
    ensures
        spec_tokens(s.insert(w as int, c), (p + 1) as nat) == spec_tokens(s, p),
    decreases s.len() - p,
{
    let s2 = s.insert(w as int, c);
    s.insert_ensures(w as int, c);
    lemma_scan_bounds(s, p);
    lemma_scan_shift(s, c, w, p);
    let t = spec_token_of(s, p);
    if t.token_type == TokenType::Eof {
        assert(spec_tokens(s2, (p + 1) as nat) =~~= spec_tokens(s, p));
    } else {
        lemma_tokens_shift(s, c, w, spec_pos_after(s, p));
        assert(spec_tokens(s2, (p + 1) as nat) =~~= spec_tokens(s, p));
    }
}

/// A whitespace skip that ends strictly before the insertion point is
/// not affected by the insertion.
proof fn lemma_skip_whitespace_prefix(s: Seq<char>, c: char, w: nat, p: nat)
    requires
        p <= s.len(),
        spec_skip_whitespace(s, p) < w <= s.len(),
    ensures
        spec_skip_whitespace(s.insert(w as int, c), p) == spec_skip_whitespace(s, p),
    decreases s.len() - p,
{
    let s2 = s.insert(w as int, c);
    s.insert_ensures(w as int, c);
    lemma_skip_whitespace_bounds(s, p);
    if p < s.len() && spec_is_whitespace(s[p as int]) {
        assert(s2[p as int] == s[p as int]);
        lemma_skip_whitespace_prefix(s, c, w, p + 1);
    } else {
        assert(s2[p as int] == s[p as int]);
    }
}

/// A letter run that ends at or before the insertion point is not
/// affected by inserting a non-letter there.
proof fn lemma_letter_end_prefix(s: Seq<char>, c: char, w: nat, p: nat)
    requires
        p <= s.len(),
        spec_letter_end(s, p) <= w <= s.len(),
        !spec_is_letter(c),
    ensures
        spec_letter_end(s.insert(w as int, c), p) == spec_letter_end(s, p),
    decreases s.len() - p,
{
    let s2 = s.insert(w as int, c);
    s.insert_ensures(w as int, c);
    lemma_letter_end_bounds(s, p);
    if p < s.len() && spec_is_letter(s[p as int]) {
        assert(s2[p as int] == s[p as int]);
        lemma_letter_end_prefix(s, c, w, p + 1);
    } else {
        if p < w {
            assert(s2[p as int] == s[p as int]);
        } else {
            assert(s2[p as int] == c);
        }
    }
}

/// A digit run that ends at or before the insertion point is not
/// affected by inserting a non-digit there.
proof fn lemma_digit_end_prefix(s: Seq<char>, c: char, w: nat, p: nat)
    requires
        p <= s.len(),
        spec_digit_end(s, p) <= w <= s.len(),
        !spec_is_digit(c),
    ensures
        spec_digit_end(s.insert(w as int, c), p) == spec_digit_end(s, p),
    decreases s.len() - p,
{
    let s2 = s.insert(w as int, c);
    s.insert_ensures(w as int, c);
    lemma_digit_end_bounds(s, p);
    if p < s.len() && spec_is_digit(s[p as int]) {
        assert(s2[p as int] == s[p as int]);
        lemma_digit_end_prefix(s, c, w, p + 1);
    } else {
        if p < w {
            assert(s2[p as int] == s[p as int]);
        } else {
            assert(s2[p as int] == c);
        }
    }
}

/// A scan step that finishes at or before the insertion point produces
/// the same token and leaves the cursor in the same place when a
/// whitespace character is inserted there.
proof fn lemma_scan_prefix(s: Seq<char>, c: char, w: nat, p: nat)
    requires
        p <= s.len(),
        spec_token_of(s, p).token_type != TokenType::Eof,
        spec_pos_after(s, p) <= w <= s.len(),
        spec_is_whitespace(c),
    ensures
        spec_token_of(s.insert(w as int, c), p) == spec_token_of(s, p),
        spec_pos_after(s.insert(w as int, c), p) == spec_pos_after(s, p),
{
    let s2 = s.insert(w as int, c);
    s.insert_ensures(w as int, c);
    lemma_skip_whitespace_bounds(s, p);
    lemma_scan_bounds(s, p);
    let i = spec_skip_whitespace(s, p);
    lemma_letter_end_bounds(s, i);
    lemma_digit_end_bounds(s, i);
    assert(spec_pos_after(s, p) > i);
    lemma_skip_whitespace_prefix(s, c, w, p);
    assert(s2[i as int] == s[i as int]);
    match spec_lookup_punct(s[i as int]) {
        Some(tt) => {
            assert(s2.subrange(i as int, i as int + 1) =~= s.subrange(i as int, i as int + 1));
        },
        None => {
            if spec_is_letter(s[i as int]) {
                lemma_letter_end_prefix(s, c, w, i);
                let j = spec_letter_end(s, i);
                assert forall|k: int| i <= k < j implies s2[k] == s[k] by {}
                assert(s2.subrange(i as int, j as int) =~= s.subrange(i as int, j as int));
            } else if spec_is_digit(s[i as int]) {
                lemma_digit_end_prefix(s, c, w, i);
                let j = spec_digit_end(s, i);
                assert forall|k: int| i <= k < j implies s2[k] == s[k] by {}
                assert(s2.subrange(i as int, j as int) =~= s.subrange(i as int, j as int));
            } else {
                assert(s2.subrange(i as int, i as int + 1) =~= s.subrange(i as int, i as int + 1));
            }
        },
    }
    assert(spec_token_of(s2, p) =~~= spec_token_of(s, p));
}

/// Whether index `w` is a token boundary of the scan from `pos`: it lies
/// in the whitespace gap before one of the stream's tokens, anywhere from
/// the start of that gap up to the first character of what follows it.
pub open spec fn spec_is_boundary(s: Seq<char>, pos: nat, w: nat) -> bool
    decreases s.len() - pos,
    when pos <= s.len()
    via spec_is_boundary_decreases
{
    ||| (pos <= w && w <= spec_skip_whitespace(s, pos))
    ||| (spec_token_of(s, pos).token_type != TokenType::Eof && spec_is_boundary(
        s,
        spec_pos_after(s, pos),
        w,
    ))
}

#[via_fn]
proof fn spec_is_boundary_decreases(s: Seq<char>, pos: nat, w: nat) {
    lemma_scan_bounds(s, pos);
}

/// A boundary never lies before the scan position nor past the end of
/// the input.
pub proof fn lemma_boundary_in_range(s: Seq<char>, pos: nat, w: nat)
    requires
        pos <= s.len(),
        spec_is_boundary(s, pos, w),
    ensures
        pos <= w <= s.len(),
    decreases s.len() - pos,
{
    lemma_scan_bounds(s, pos);
    lemma_skip_whitespace_bounds(s, pos);
    if !(pos <= w && w <= spec_skip_whitespace(s, pos)) {
        lemma_boundary_in_range(s, spec_pos_after(s, pos), w);
    }
}

/// The scan position itself is always a boundary, so in particular the
/// start of the input is one.
pub proof fn lemma_boundary_start(s: Seq<char>, pos: nat)
    requires
        pos <= s.len(),
    ensures
        spec_is_boundary(s, pos, pos),
{
    lemma_skip_whitespace_bounds(s, pos);
}

/// Whitespace invisibility: inserting a whitespace character at any token
/// boundary leaves the token stream unchanged. Read from right to left
/// the same equation says that removing such a character changes nothing,
/// and repeated application covers whole runs of inserted whitespace.
pub proof fn lemma_whitespace_invisible(s: Seq<char>, pos: nat, w: nat, c: char)
    requires
        pos <= s.len(),
        spec_is_whitespace(c),
        spec_is_boundary(s, pos, w),
    ensures
        spec_tokens(s.insert(w as int, c), pos) == spec_tokens(s, pos),
    decreases s.len() - pos,
{
    lemma_boundary_in_range(s, pos, w);
    let s2 = s.insert(w as int, c);
    s.insert_ensures(w as int, c);
    lemma_scan_bounds(s, pos);
    lemma_skip_whitespace_bounds(s, pos);
    if pos <= w && w <= spec_skip_whitespace(s, pos) {
        let i = spec_skip_whitespace(s, pos);
        lemma_skip_whitespace_insert(s, c, w, pos);
        if i == s.len() {
            assert(spec_tokens(s2, pos) =~~= spec_tokens(s, pos));
        } else {
            lemma_letter_end_bounds(s, i);
            lemma_digit_end_bounds(s, i);
            lemma_scan_shift(s, c, w, i);
            assert(spec_skip_whitespace(s2, (i + 1) as nat) == i + 1) by {
                lemma_skip_whitespace_shift(s, c, w, i);
            }
            assert(spec_token_of(s2, pos) == spec_token_of(s2, (i + 1) as nat));
            assert(spec_pos_after(s2, pos) == spec_pos_after(s2, (i + 1) as nat));
            assert(spec_token_of(s2, pos) == spec_token_of(s, pos));
            assert(spec_pos_after(s2, pos) == spec_pos_after(s, pos) + 1);
            if spec_token_of(s, pos).token_type == TokenType::Eof {
                assert(spec_tokens(s2, pos) =~~= spec_tokens(s, pos));
            } else {
                lemma_tokens_shift(s, c, w, spec_pos_after(s, pos));
                assert(spec_tokens(s2, pos) =~~= spec_tokens(s, pos));
            }
        }
    } else {
        lemma_boundary_in_range(s, spec_pos_after(s, pos), w);
        lemma_scan_prefix(s, c, w, pos);
        lemma_whitespace_invisible(s, spec_pos_after(s, pos), w, c);
        assert(spec_tokens(s2, pos) =~~= spec_tokens(s, pos));
    }
}

/// Inserting a whitespace character anywhere inside the whitespace gap at
/// the scan position lengthens the skip by exactly one.
proof fn lemma_skip_whitespace_insert(s: Seq<char>, c: char, w: nat, p: nat)
    requires
        p <= s.len(),
        p <= w <= spec_skip_whitespace(s, p),
        spec_is_whitespace(c),
    ensures
        spec_skip_whitespace(s.insert(w as int, c), p) == spec_skip_whitespace(s, p) + 1,
    decreases s.len() - p,
{
    lemma_skip_whitespace_bounds(s, p);
    let s2 = s.insert(w as int, c);
    s.insert_ensures(w as int, c);
    if p == w {
        assert(s2[p as int] == c);
        lemma_skip_whitespace_shift(s, c, w, p);
    } else {
        assert(spec_is_whitespace(s[p as int]));
        assert(s2[p as int] == s[p as int]);
        lemma_skip_whitespace_insert(s, c, w, p + 1);
    }
}

} // verus!
