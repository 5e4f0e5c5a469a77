//! The tokenizer: from a raw string to a list of typed tokens.
//!
//! `spec_lex` is the mathematical statement of the grammar: longest-match
//! scanning of identifiers, decimal integers, char and string literals and
//! the fixed punctuation set, with whitespace folded into the following
//! token's `space_diff`.  `parse_to_tokens` is proved to return exactly what
//! `spec_lex` describes.

use vstd::prelude::*;

use crate::tokens::{spec_is_ws, Token, TokenKind, TokenKindView, TokenView};

verus! {

/// The expression tokenizer, as a named entry point.
pub struct ExprParser;

/// Tokenization failure: a numeric literal too large for its carrier type.
#[derive(Debug)]
pub enum TokenError {
    IntError,
}

pub open spec fn spec_is_digit(c: char) -> bool {
    48 <= c as u32 <= 57
}

pub open spec fn spec_is_alpha(c: char) -> bool {
    (97 <= c as u32 <= 122) || (65 <= c as u32 <= 90) || c == '_'
}

pub open spec fn spec_is_ident_char(c: char) -> bool {
    spec_is_alpha(c) || spec_is_digit(c)
}

pub open spec fn spec_digit_val(c: char) -> int {
    c as u32 - 48
}

/// The numeric value of a digit sequence, most significant digit first.
pub open spec fn spec_digits_val(s: Seq<char>) -> int
    decreases s.len(),
{
    if s.len() == 0 {
        0
    } else {
        spec_digits_val(s.drop_last()) * 10 + spec_digit_val(s.last())
    }
}

/// The first index at or after `i` that does not hold an identifier char.
pub open spec fn spec_ident_end(s: Seq<char>, i: int) -> int
    decreases s.len() - i,
{
    if i < 0 || i >= s.len() || !spec_is_ident_char(s[i]) {
        i
    } else {
        spec_ident_end(s, i + 1)
    }
}

/// The first index at or after `i` that does not hold a digit.
pub open spec fn spec_digit_end(s: Seq<char>, i: int) -> int
    decreases s.len() - i,
{
    if i < 0 || i >= s.len() || !spec_is_digit(s[i]) {
        i
    } else {
        spec_digit_end(s, i + 1)
    }
}

/// The first index at or after `i` that does not hold whitespace.
pub open spec fn spec_ws_end(s: Seq<char>, i: int) -> int
    decreases s.len() - i,
{
    if i < 0 || i >= s.len() || !spec_is_ws(s[i]) {
        i
    } else {
        spec_ws_end(s, i + 1)
    }
}

/// The character denoted by a backslash escape, if the escape is known.
pub open spec fn spec_escape(c: char) -> Option<char> {
    if c == '\\' {
        Some('\\')
    } else if c == '\'' {
        Some('\'')
    } else if c == '"' {
        Some('"')
    } else if c == 'n' {
        Some('\n')
    } else if c == 'r' {
        Some('\r')
    } else if c == 't' {
        Some('\t')
    } else if c == '0' {
        Some('\0')
    } else {
        None
    }
}

/// Scan a char literal starting at the opening quote at `i`.  On success,
/// the denoted character and the index one past the closing quote.
pub open spec fn spec_char_lit(s: Seq<char>, i: int) -> Option<(char, int)> {
    if i + 1 < s.len() && s[i + 1] == '\\' {
        if i + 3 < s.len() && spec_escape(s[i + 2]) is Some && s[i + 3] == '\'' {
            Some((spec_escape(s[i + 2])->0, i + 4))
        } else {
            None
        }
    } else if i + 2 < s.len() && s[i + 1] != '\'' && s[i + 2] == '\'' {
        Some((s[i + 1], i + 3))
    } else {
        None
    }
}

/// Scan the body of a string literal from `i` (one past the opening quote).
/// On success, the denoted contents and the index one past the closing
/// quote.
pub open spec fn spec_str_scan(s: Seq<char>, i: int) -> Option<(Seq<char>, int)>
    decreases s.len() - i,
{
    if i < 0 || i >= s.len() {
        None
    } else if s[i] == '"' {
        Some((Seq::empty(), i + 1))
    } else if s[i] == '\\' {
        if i + 1 < s.len() && spec_escape(s[i + 1]) is Some {
            match spec_str_scan(s, i + 2) {
                Some((content, end)) => Some(
                    (seq![spec_escape(s[i + 1])->0] + content, end),
                ),
                None => None,
            }
        } else {
            None
        }
    } else {
        match spec_str_scan(s, i + 1) {
            Some((content, end)) => Some((seq![s[i]] + content, end)),
            None => None,
        }
    }
}

/// The outcome of scanning one token at a non-whitespace position: the
/// token's kind and end index, or a numeric literal out of range.
pub enum LexStep {
    Tok(TokenKindView, int),
    Bad,
}

pub open spec fn u64_limit() -> int {
    0xffff_ffff_ffff_ffff
}

pub open spec fn i64_neg_limit() -> int {
    0x8000_0000_0000_0000
}

/// Scan the single token that starts at position `i`, which must hold a
/// non-whitespace character.  An unrecognized sequence produces one
/// `InvalidToken` spanning the rest of the input.
pub open spec fn spec_step(s: Seq<char>, i: int) -> LexStep {
    let c = s[i];
    if spec_is_alpha(c) {
        LexStep::Tok(TokenKindView::Ident, spec_ident_end(s, i))
    } else if spec_is_digit(c) {
        let j = spec_digit_end(s, i);
        let v = spec_digits_val(s.subrange(i, j));
        if v > u64_limit() {
            LexStep::Bad
        } else {
            LexStep::Tok(TokenKindView::NonNegativeDecimal(v as u64), j)
        }
    } else if c == '-' && i + 1 < s.len() && spec_is_digit(s[i + 1]) {
        let j = spec_digit_end(s, i + 1);
        let v = spec_digits_val(s.subrange(i + 1, j));
        if v > i64_neg_limit() {
            LexStep::Bad
        } else {
            LexStep::Tok(TokenKindView::Decimal((-v) as i64), j)
        }
    } else if c == '.' {
        if i + 1 < s.len() && s[i + 1] == '.' {
            if i + 2 < s.len() && s[i + 2] == '=' {
                LexStep::Tok(TokenKindView::Range(true), i + 3)
            } else {
                LexStep::Tok(TokenKindView::Range(false), i + 2)
            }
        } else {
            LexStep::Tok(TokenKindView::FieldAccess, i + 1)
        }
    } else if c == '[' {
        LexStep::Tok(TokenKindView::SubscriptOpen, i + 1)
    } else if c == ']' {
        LexStep::Tok(TokenKindView::SubscriptClose, i + 1)
    } else if c == '(' {
        LexStep::Tok(TokenKindView::TupleOpen, i + 1)
    } else if c == ')' {
        LexStep::Tok(TokenKindView::TupleClose, i + 1)
    } else if c == '{' {
        LexStep::Tok(TokenKindView::CurlyOpen, i + 1)
    } else if c == '}' {
        LexStep::Tok(TokenKindView::CurlyClose, i + 1)
    } else if c == ',' {
        LexStep::Tok(TokenKindView::Comma, i + 1)
    } else if c == ':' {
        LexStep::Tok(TokenKindView::Colon, i + 1)
    } else if c == '*' {
        LexStep::Tok(TokenKindView::Asterix, i + 1)
    } else if c == '=' {
        LexStep::Tok(TokenKindView::Assign, i + 1)
    } else if c == '\'' {
        match spec_char_lit(s, i) {
            Some((ch, j)) => LexStep::Tok(TokenKindView::Char(ch), j),
            None => LexStep::Tok(TokenKindView::InvalidToken, s.len() as int),
        }
    } else if c == '"' {
        match spec_str_scan(s, i + 1) {
            Some((content, j)) => LexStep::Tok(TokenKindView::Str(content), j),
            None => LexStep::Tok(TokenKindView::InvalidToken, s.len() as int),
        }
    } else {
        LexStep::Tok(TokenKindView::InvalidToken, s.len() as int)
    }
}

proof fn lemma_ident_end_bounds(s: Seq<char>, i: int)
    requires
        0 <= i <= s.len(),
    ensures
        i <= spec_ident_end(s, i) <= s.len(),
        i <= spec_digit_end(s, i) <= s.len(),
        i <= spec_ws_end(s, i) <= s.len(),
        spec_ws_end(s, i) < s.len() ==> !spec_is_ws(s[spec_ws_end(s, i)]),
    decreases s.len() - i,
{
    if i < s.len() {
        lemma_ident_end_bounds(s, i + 1);
    }
}

proof fn lemma_str_scan_bounds(s: Seq<char>, i: int)
    requires
        0 <= i,
    ensures
        match spec_str_scan(s, i) {
            Some((content, end)) => i < end <= s.len(),
            None => true,
        },
    decreases s.len() - i,
{
    if 0 <= i < s.len() {
        if s[i] == '"' {
        } else if s[i] == '\\' {
            if i + 1 < s.len() && spec_escape(s[i + 1]) is Some {
                lemma_str_scan_bounds(s, i + 2);
            }
        } else {
            lemma_str_scan_bounds(s, i + 1);
        }
    }
}

/// The end index of the token described by a step, for termination
/// arguments: always past `i` and never past the input's end.
pub proof fn lemma_step_bounds(s: Seq<char>, i: int)
    requires
        0 <= i < s.len(),
        !spec_is_ws(s[i]),
    ensures
        match spec_step(s, i) {
            LexStep::Tok(_, end) => i < end <= s.len(),
            LexStep::Bad => true,
        },
{
    lemma_ident_end_bounds(s, i);
    if i + 1 <= s.len() {
        lemma_ident_end_bounds(s, i + 1);
    }
    let c = s[i];
    if spec_is_alpha(c) {
        assert(spec_ident_end(s, i) == spec_ident_end(s, i + 1));
    } else if spec_is_digit(c) {
        assert(spec_digit_end(s, i) == spec_digit_end(s, i + 1));
    } else if c == '\'' {
    } else if c == '"' {
        lemma_str_scan_bounds(s, i + 1);
    }
}

/// The token sequence denoted by the input from position `i`, where
/// `last_end` is the end of the previous token (for whitespace accounting).
/// `None` stands for a numeric literal out of range.
pub open spec fn spec_lex(s: Seq<char>, i: int, last_end: int) -> Option<Seq<TokenView>>
    decreases s.len() - i,
    via spec_lex_dec
{
    if !(0 <= last_end <= i <= s.len()) {
        None
    } else {
        let j = spec_ws_end(s, i);
        if j >= s.len() {
            Some(Seq::empty())
        } else {
            match spec_step(s, j) {
                LexStep::Bad => None,
                LexStep::Tok(kind, end) => {
                    let t = TokenView {
                        kind,
                        text: s.subrange(j, end),
                        space_diff: (j - last_end) as nat,
                    };
                    if kind is InvalidToken {
                        Some(seq![t])
                    } else {
                        match spec_lex(s, end, end) {
                            None => None,
                            Some(rest) => Some(seq![t] + rest),
                        }
                    }
                },
            }
        }
    }
}

#[via_fn]
proof fn spec_lex_dec(s: Seq<char>, i: int, last_end: int) {
    if 0 <= last_end <= i <= s.len() {
        lemma_ident_end_bounds(s, i);
        let j = spec_ws_end(s, i);
        if j < s.len() {
            lemma_step_bounds(s, j);
        }
    }
}


proof fn lemma_digits_val_nonneg(s: Seq<char>)
    requires
        forall|k: int| 0 <= k < s.len() ==> spec_is_digit(s[k]),
    ensures
        spec_digits_val(s) >= 0,
    decreases s.len(),
{
    if s.len() > 0 {
        lemma_digits_val_nonneg(s.drop_last());
    }
}

proof fn lemma_digits_val_mono(s: Seq<char>, k: int)
    requires
        forall|j: int| 0 <= j < s.len() ==> spec_is_digit(s[j]),
        0 <= k <= s.len(),
    ensures
        spec_digits_val(s) >= spec_digits_val(s.take(k)),
    decreases s.len(),
{
    lemma_digits_val_nonneg(s);
    if k < s.len() {
        lemma_digits_val_nonneg(s.drop_last());
        assert(s.drop_last().take(k) =~= s.take(k));
        lemma_digits_val_mono(s.drop_last(), k);
        assert(spec_digits_val(s.drop_last()) * 10 >= spec_digits_val(s.drop_last())) by (
        nonlinear_arith)
            requires
                spec_digits_val(s.drop_last()) >= 0,
        ;
    } else {
        assert(s.take(k) =~= s);
    }
}

fn is_digit_c(c: char) -> (r: bool)
    ensures
        r == spec_is_digit(c),
{
    let u = c as u32;
    48 <= u && u <= 57
}

fn is_alpha_c(c: char) -> (r: bool)
    ensures
        r == spec_is_alpha(c),
{
    let u = c as u32;
    (97 <= u && u <= 122) || (65 <= u && u <= 90) || c == '_'
}

fn is_ident_char_c(c: char) -> (r: bool)
    ensures
        r == spec_is_ident_char(c),
{
    is_alpha_c(c) || is_digit_c(c)
}

fn is_ws_c(c: char) -> (r: bool)
    ensures
        r == spec_is_ws(c),
{
    c == ' ' || c == '\t' || c == '\n' || c == '\r'
}

/// Copy the character range `[from, to)` into a fresh string.
fn chars_to_string(chars: &Vec<char>, from: usize, to: usize) -> (r: String)
    requires
        from <= to <= chars@.len(),
    ensures
        r@ == chars@.subrange(from as int, to as int),
{
    let mut r = String::new();
    let mut i: usize = from;
    while i < to
        invariant
            from <= i <= to <= chars@.len(),
            r@ == chars@.subrange(from as int, i as int),
        decreases to - i,
    {
        crate::tokens::push_char(&mut r, chars[i]);
        proof {
            assert(chars@.subrange(from as int, i as int).push(chars@[i as int]) =~= chars@
                .subrange(from as int, i + 1));
        }
        i = i + 1;
    }
    r
}

fn scan_ident_end(chars: &Vec<char>, from: usize) -> (r: usize)
    requires
        from <= chars@.len(),
    ensures
        r == spec_ident_end(chars@, from as int),
        from <= r <= chars@.len(),
    decreases chars@.len() - from,
{
    let mut i: usize = from;
    while i < chars.len() && is_ident_char_c(chars[i])
        invariant
            from <= i <= chars@.len(),
            spec_ident_end(chars@, from as int) == spec_ident_end(chars@, i as int),
        decreases chars@.len() - i,
    {
        i = i + 1;
    }
    i
}

fn scan_digit_end(chars: &Vec<char>, from: usize) -> (r: usize)
    requires
        from <= chars@.len(),
    ensures
        r == spec_digit_end(chars@, from as int),
        from <= r <= chars@.len(),
        forall|k: int| from <= k < r ==> spec_is_digit(chars@[k]),
    decreases chars@.len() - from,
{
    let mut i: usize = from;
    while i < chars.len() && is_digit_c(chars[i])
        invariant
            from <= i <= chars@.len(),
            spec_digit_end(chars@, from as int) == spec_digit_end(chars@, i as int),
            forall|k: int| from <= k < i ==> spec_is_digit(chars@[k]),
        decreases chars@.len() - i,
    {
        i = i + 1;
    }
    i
}

fn scan_ws_end(chars: &Vec<char>, from: usize) -> (r: usize)
    requires
        from <= chars@.len(),
    ensures
        r == spec_ws_end(chars@, from as int),
        from <= r <= chars@.len(),
        r < chars@.len() ==> !spec_is_ws(chars@[r as int]),
    decreases chars@.len() - from,
{
    let mut i: usize = from;
    while i < chars.len() && is_ws_c(chars[i])
        invariant
            from <= i <= chars@.len(),
            spec_ws_end(chars@, from as int) == spec_ws_end(chars@, i as int),
        decreases chars@.len() - i,
    {
        i = i + 1;
    }
    i
}

/// The value of the digit run `[from, to)`, or `None` when it does not fit
/// in a `u64`.
fn digits_value(chars: &Vec<char>, from: usize, to: usize) -> (r: Option<u64>)
    requires
        from <= to <= chars@.len(),
        forall|k: int| from <= k < to ==> spec_is_digit(chars@[k]),
    ensures
        match r {
            Some(v) => v == spec_digits_val(chars@.subrange(from as int, to as int)),
            None => spec_digits_val(chars@.subrange(from as int, to as int)) > u64_limit(),
        },
{
    let ghost whole = chars@.subrange(from as int, to as int);
    let mut acc: u64 = 0;
    let mut i: usize = from;
    proof {
        assert(chars@.subrange(from as int, from as int) =~= Seq::<char>::empty());
    }
    while i < to
        invariant
            from <= i <= to <= chars@.len(),
            forall|k: int| from <= k < to ==> spec_is_digit(chars@[k]),
            whole == chars@.subrange(from as int, to as int),
            acc == spec_digits_val(chars@.subrange(from as int, i as int)),
        decreases to - i,
    {
        let d: u64 = (chars[i] as u32 - 48) as u64;
        proof {
            assert(spec_is_digit(chars@[i as int]));
            assert(chars@.subrange(from as int, i + 1).drop_last() =~= chars@.subrange(
                from as int,
                i as int,
            ));
        }
        if acc > (0xffff_ffff_ffff_ffffu64 - d) / 10 {
            proof {
                assert(acc * 10 + d > u64_limit()) by (nonlinear_arith)
                    requires
                        acc > (0xffff_ffff_ffff_ffffu64 - d) / 10,
                        d <= 9,
                ;
                assert(spec_digits_val(chars@.subrange(from as int, i + 1)) == acc * 10 + d);
                assert(forall|k: int|
                    0 <= k < whole.len() ==> spec_is_digit(#[trigger] whole[k]));
                lemma_digits_val_mono(whole, i + 1 - from);
                assert(whole.take(i + 1 - from) =~= chars@.subrange(from as int, i + 1));
            }
            return None;
        }
        proof {
            assert(acc * 10 + d <= u64_limit()) by (nonlinear_arith)
                requires
                    acc <= (0xffff_ffff_ffff_ffffu64 - d) / 10,
                    d <= 9,
            ;
        }
        acc = acc * 10 + d;
        i = i + 1;
    }
    Some(acc)
}

fn escape_char(c: char) -> (r: Option<char>)
    ensures
        r == spec_escape(c),
{
    if c == '\\' {
        Some('\\')
    } else if c == '\'' {
        Some('\'')
    } else if c == '"' {
        Some('"')
    } else if c == 'n' {
        Some('\n')
    } else if c == 'r' {
        Some('\r')
    } else if c == 't' {
        Some('\t')
    } else if c == '0' {
        Some('\0')
    } else {
        None
    }
}

/// Scan a char literal whose opening quote stands at `i`.
fn scan_char_lit(chars: &Vec<char>, i: usize) -> (r: Option<(char, usize)>)
    requires
        i < chars@.len(),
    ensures
        match r {
            Some((c, end)) => spec_char_lit(chars@, i as int) == Some((c, end as int)) && i < end
                <= chars@.len(),
            None => spec_char_lit(chars@, i as int) is None,
        },
{
    let n = chars.len();
    if n - i > 1 && chars[i + 1] == '\\' {
        if n - i > 3 {
            match escape_char(chars[i + 2]) {
                Some(e) => {
                    if chars[i + 3] == '\'' {
                        Some((e, i + 4))
                    } else {
                        None
                    }
                },
                None => None,
            }
        } else {
            None
        }
    } else if n - i > 2 && chars[i + 1] != '\'' && chars[i + 2] == '\'' {
        Some((chars[i + 1], i + 3))
    } else {
        None
    }
}

/// Scan the body of a string literal from `start` (one past the opening
/// quote), returning the denoted contents and the end index.
fn scan_str_body(chars: &Vec<char>, start: usize) -> (r: Option<(Vec<char>, usize)>)
    requires
        start <= chars@.len(),
    ensures
        match r {
            Some((content, end)) => spec_str_scan(chars@, start as int) == Some(
                (content@, end as int),
            ) && start < end <= chars@.len(),
            None => spec_str_scan(chars@, start as int) is None,
        },
{
    let n = chars.len();
    let mut content: Vec<char> = Vec::new();
    let mut i: usize = start;
    loop
        invariant
            start <= i <= n,
            n == chars@.len(),
            match spec_str_scan(chars@, i as int) {
                Some((c, e)) => spec_str_scan(chars@, start as int) == Some((content@ + c, e)),
                None => spec_str_scan(chars@, start as int) is None,
            },
        decreases n - i,
    {
        if i >= n {
            return None;
        }
        let c = chars[i];
        if c == '"' {
            proof {
                assert(content@ + Seq::<char>::empty() =~= content@);
            }
            return Some((content, i + 1));
        } else if c == '\\' {
            if i + 1 < n {
                match escape_char(chars[i + 1]) {
                    Some(e) => {
                        let ghost old_content = content@;
                        content.push(e);
                        proof {
                            if let Some((crest, cend)) = spec_str_scan(chars@, i + 2) {
                                assert(old_content + (seq![e] + crest) =~= content@ + crest);
                            }
                        }
                        i = i + 2;
                    },
                    None => {
                        return None;
                    },
                }
            } else {
                return None;
            }
        } else {
            let ghost old_content = content@;
            content.push(c);
            proof {
                if let Some((crest, cend)) = spec_str_scan(chars@, i + 1) {
                    assert(old_content + (seq![c] + crest) =~= content@ + crest);
                }
            }
            i = i + 1;
        }
    }
}

/// Scan the single token that starts at the non-whitespace position `j`.
fn next_token(chars: &Vec<char>, j: usize, last_end: usize) -> (r: Result<
    (Token, usize),
    TokenError,
>)
    requires
        last_end <= j < chars@.len(),
        !spec_is_ws(chars@[j as int]),
    ensures
        match r {
            Ok((t, end)) => {
                &&& spec_step(chars@, j as int) == LexStep::Tok(t@.kind, end as int)
                &&& t@.text == chars@.subrange(j as int, end as int)
                &&& t@.space_diff == j - last_end
                &&& j < end <= chars@.len()
            },
            Err(_) => spec_step(chars@, j as int) is Bad,
        },
{
    proof {
        lemma_step_bounds(chars@, j as int);
    }
    let n = chars.len();
    let c = chars[j];
    let space = j - last_end;
    if is_alpha_c(c) {
        let end = scan_ident_end(chars, j);
        let text = chars_to_string(chars, j, end);
        Ok((Token { kind: TokenKind::Ident, text, space_diff: space }, end))
    } else if is_digit_c(c) {
        let end = scan_digit_end(chars, j);
        match digits_value(chars, j, end) {
            Some(v) => {
                let text = chars_to_string(chars, j, end);
                Ok((Token { kind: TokenKind::NonNegativeDecimal(v), text, space_diff: space }, end))
            },
            None => Err(TokenError::IntError),
        }
    } else if c == '-' && j + 1 < n && is_digit_c(chars[j + 1]) {
        let end = scan_digit_end(chars, j + 1);
        match digits_value(chars, j + 1, end) {
            Some(v) => {
                if v <= 0x7fff_ffff_ffff_ffffu64 {
                    let text = chars_to_string(chars, j, end);
                    let value: i64 = -(v as i64);
                    Ok((Token { kind: TokenKind::Decimal(value), text, space_diff: space }, end))
                } else if v == 0x8000_0000_0000_0000u64 {
                    let text = chars_to_string(chars, j, end);
                    let value: i64 = i64::MIN;
                    Ok((Token { kind: TokenKind::Decimal(value), text, space_diff: space }, end))
                } else {
                    Err(TokenError::IntError)
                }
            },
            None => Err(TokenError::IntError),
        }
    } else if c == '.' {
        if j + 1 < n && chars[j + 1] == '.' {
            if j + 2 < n && chars[j + 2] == '=' {
                let text = chars_to_string(chars, j, j + 3);
                Ok((Token { kind: TokenKind::Range(true), text, space_diff: space }, j + 3))
            } else {
                let text = chars_to_string(chars, j, j + 2);
                Ok((Token { kind: TokenKind::Range(false), text, space_diff: space }, j + 2))
            }
        } else {
            let text = chars_to_string(chars, j, j + 1);
            Ok((Token { kind: TokenKind::FieldAccess, text, space_diff: space }, j + 1))
        }
    } else if c == '[' || c == ']' || c == '(' || c == ')' || c == '{' || c == '}' || c == ','
        || c == ':' || c == '*' || c == '=' {
        let kind = if c == '[' {
            TokenKind::SubscriptOpen
        } else if c == ']' {
            TokenKind::SubscriptClose
        } else if c == '(' {
            TokenKind::TupleOpen
        } else if c == ')' {
            TokenKind::TupleClose
        } else if c == '{' {
            TokenKind::CurlyOpen
        } else if c == '}' {
            TokenKind::CurlyClose
        } else if c == ',' {
            TokenKind::Comma
        } else if c == ':' {
            TokenKind::Colon
        } else if c == '*' {
            TokenKind::Asterix
        } else {
            TokenKind::Assign
        };
        let text = chars_to_string(chars, j, j + 1);
        Ok((Token { kind, text, space_diff: space }, j + 1))
    } else if c == '\'' {
        match scan_char_lit(chars, j) {
            Some((ch, end)) => {
                let text = chars_to_string(chars, j, end);
                Ok((Token { kind: TokenKind::Char(ch), text, space_diff: space }, end))
            },
            None => {
                let text = chars_to_string(chars, j, n);
                Ok((Token { kind: TokenKind::InvalidToken, text, space_diff: space }, n))
            },
        }
    } else if c == '"' {
        match scan_str_body(chars, j + 1) {
            Some((content, end)) => {
                let text = chars_to_string(chars, j, end);
                let lit = chars_to_string(&content, 0, content.len());
                proof {
                    assert(content@.subrange(0, content@.len() as int) =~= content@);
                }
                Ok((Token { kind: TokenKind::Str(lit), text, space_diff: space }, end))
            },
            None => {
                let text = chars_to_string(chars, j, n);
                Ok((Token { kind: TokenKind::InvalidToken, text, space_diff: space }, n))
            },
        }
    } else {
        let text = chars_to_string(chars, j, n);
        Ok((Token { kind: TokenKind::InvalidToken, text, space_diff: space }, n))
    }
}

impl ExprParser {
    /// Tokenize a whole expression.
    pub fn parse(s: &str) -> (r: Result<Vec<Token>, TokenError>)
        ensures
            match r {
                Ok(v) => spec_lex(s@, 0, 0) == Some(v@.map_values(|t: Token| t@)),
                Err(_) => spec_lex(s@, 0, 0) is None,
            },
    {
        parse_to_tokens(s)
    }
}

/// Parse a string into a vector of tokens.  The result is exactly what
/// `spec_lex` denotes for the string's characters; an error reports a
/// numeric literal that does not fit its carrier type.
pub fn parse_to_tokens(s: &str) -> (r: Result<Vec<Token>, TokenError>)
    ensures
        match r {
            Ok(v) => spec_lex(s@, 0, 0) == Some(v@.map_values(|t: Token| t@)),
            Err(_) => spec_lex(s@, 0, 0) is None,
        },
{
    let chars = crate::tokens::str_to_chars(s);
    let n = chars.len();
    let mut out: Vec<Token> = Vec::new();
    let mut i: usize = 0;
    let mut last_end: usize = 0;
    loop
        invariant
            last_end <= i <= n,
            n == chars@.len(),
            chars@ == s@,
            match spec_lex(s@, i as int, last_end as int) {
                Some(rest) => spec_lex(s@, 0, 0) == Some(
                    out@.map_values(|t: Token| t@) + rest,
                ),
                None => spec_lex(s@, 0, 0) is None,
            },
        decreases n - i,
    {
        let j = scan_ws_end(&chars, i);
        if j >= n {
            proof {
                assert(out@.map_values(|t: Token| t@) + Seq::<TokenView>::empty() =~= out@
                    .map_values(|t: Token| t@));
            }
            return Ok(out);
        }
        match next_token(&chars, j, last_end) {
            Err(e) => {
                return Err(e);
            },
            Ok((t, end)) => {
                let ghost old_views = out@.map_values(|tk: Token| tk@);
                let ghost tv = t@;
                let is_invalid = match t.kind {
                    TokenKind::InvalidToken => true,
                    _ => false,
                };
                out.push(t);
                proof {
                    assert(out@.map_values(|tk: Token| tk@) =~= old_views.push(tv));
                    let stepped = spec_step(s@, j as int);
                    let t_spec = TokenView {
                        kind: stepped->Tok_0,
                        text: s@.subrange(j as int, stepped->Tok_1),
                        space_diff: (j - last_end) as nat,
                    };
                    assert(tv == t_spec);
                    if is_invalid {
                        assert(spec_lex(s@, i as int, last_end as int) == Some(seq![tv]));
                        assert(old_views + seq![tv] =~= old_views.push(tv));
                    } else {
                        match spec_lex(s@, end as int, end as int) {
                            Some(rest2) => {
                                assert(spec_lex(s@, i as int, last_end as int) == Some(
                                    seq![tv] + rest2,
                                ));
                                assert(old_views + (seq![tv] + rest2) =~= old_views.push(tv)
                                    + rest2);
                            },
                            None => {},
                        }
                    }
                }
                if is_invalid {
                    return Ok(out);
                }
                i = end;
                last_end = end;
            },
        }
    }
}

} // verus!
