//! Mathematical model of the scan: byte classes, lexeme-end functions, line
//! and column accounting, and the recursive specification `scan_from` that
//! every result of `Scanner::scan` is proved equal to.

use vstd::prelude::*;
use crate::token::{SpecDiag, SpecToken, Token};

verus! {

/// ASCII whitespace other than the line break: space, tab, carriage return,
/// vertical tab and form feed.
pub open spec fn is_space(b: u8) -> bool {
    b == 32 || b == 9 || b == 13 || b == 11 || b == 12
}

/// ASCII decimal digit.
pub open spec fn is_digit(b: u8) -> bool {
    48 <= b && b <= 57
}

/// ASCII letter, the class that may start an identifier.
pub open spec fn is_alpha(b: u8) -> bool {
    (97 <= b && b <= 122) || (65 <= b && b <= 90)
}

/// ASCII letter, digit or underscore: the class that may continue an
/// identifier.
pub open spec fn is_ident_continue(b: u8) -> bool {
    is_digit(b) || is_alpha(b) || b == 95
}

/// Number of line-break bytes in `code[i..j)`.
pub open spec fn newline_count(code: Seq<u8>, i: int, j: int) -> int
    decreases j - i,
{
    if j <= i {
        0
    } else {
        newline_count(code, i, j - 1) + if code[j - 1] == 10 {
            1int
        } else {
            0int
        }
    }
}

/// The 0-based column of position `j`, given that position `i` stood at
/// column `col`: each consumed byte advances the column by one, and a line
/// break resets it to zero.
pub open spec fn col_after(code: Seq<u8>, i: int, j: int, col: int) -> int
    decreases j - i,
{
    if j <= i {
        col
    } else if code[j - 1] == 10 {
        0
    } else {
        col_after(code, i, j - 1, col) + 1
    }
}

/// 1-based line of byte position `o`: one more than the line breaks before it.
pub open spec fn line_at(code: Seq<u8>, o: int) -> int {
    1 + newline_count(code, 0, o)
}

/// 0-based column of byte position `o` within its line.
pub open spec fn column_at(code: Seq<u8>, o: int) -> int {
    col_after(code, 0, o, 0)
}

/// End of the maximal digit run starting at `i`.
pub open spec fn digits_end(code: Seq<u8>, i: int) -> int
    decreases code.len() - i,
{
    if i < 0 || i >= code.len() || !is_digit(code[i]) {
        i
    } else {
        digits_end(code, i + 1)
    }
}

/// End of a number lexeme whose first digit stands just before `i`: the rest
/// of the integer part, then optionally a dot and a (possibly empty)
/// fraction part.
pub open spec fn number_end(code: Seq<u8>, i: int) -> int {
    let d = digits_end(code, i);
    if 0 <= d < code.len() && code[d] == 46 {
        digits_end(code, d + 1)
    } else {
        d
    }
}

/// End of the maximal identifier-continuation run starting at `i`.
pub open spec fn ident_end(code: Seq<u8>, i: int) -> int
    decreases code.len() - i,
{
    if i < 0 || i >= code.len() || !is_ident_continue(code[i]) {
        i
    } else {
        ident_end(code, i + 1)
    }
}

/// First position at or after `i` holding a line break, or the end of the
/// input: where a line comment stops consuming.
pub open spec fn comment_end(code: Seq<u8>, i: int) -> int
    decreases code.len() - i,
{
    if i < 0 || i >= code.len() || code[i] == 10 {
        i
    } else {
        comment_end(code, i + 1)
    }
}

/// Position of the closing quote of a string literal whose content starts at
/// `i`, or `None` when the input ends first. A backslash consumes the byte
/// after it unconditionally, so an escaped quote does not close the literal.
pub open spec fn string_close(code: Seq<u8>, i: int) -> Option<int>
    decreases code.len() - i,
{
    if i < 0 || i >= code.len() {
        None
    } else if code[i] == 34 {
        Some(i)
    } else if code[i] == 92 {
        if i + 1 < code.len() {
            string_close(code, i + 2)
        } else {
            None
        }
    } else {
        string_close(code, i + 1)
    }
}

/// The kind an identifier-shaped lexeme scans to: the matching reserved
/// word's kind when the whole lexeme is that word, else `Identifier`.
pub open spec fn keyword_kind(s: Seq<u8>) -> Token {
    if s =~= seq![97u8, 110u8, 100u8] {
        Token::And
    } else if s =~= seq![111u8, 114u8] {
        Token::Or
    } else if s =~= seq![99u8, 108u8, 97u8, 115u8, 115u8] {
        Token::Class
    } else if s =~= seq![116u8, 104u8, 105u8, 115u8] {
        Token::This
    } else if s =~= seq![115u8, 117u8, 112u8, 101u8, 114u8] {
        Token::Super
    } else if s =~= seq![102u8, 111u8, 114u8] {
        Token::For
    } else if s =~= seq![119u8, 104u8, 105u8, 108u8, 101u8] {
        Token::While
    } else if s =~= seq![105u8, 102u8] {
        Token::If
    } else if s =~= seq![101u8, 108u8, 115u8, 101u8] {
        Token::Else
    } else if s =~= seq![102u8, 117u8, 110u8] {
        Token::Fun
    } else if s =~= seq![114u8, 101u8, 116u8, 117u8, 114u8, 110u8] {
        Token::Return
    } else if s =~= seq![112u8, 114u8, 105u8, 110u8, 116u8] {
        Token::Print
    } else if s =~= seq![118u8, 97u8, 114u8] {
        Token::Var
    } else if s =~= seq![110u8, 105u8, 108u8] {
        Token::Nil
    } else if s =~= seq![116u8, 114u8, 117u8, 101u8] {
        Token::True
    } else if s =~= seq![102u8, 97u8, 108u8, 115u8, 101u8] {
        Token::False
    } else {
        Token::Identifier
    }
}

/// One dispatch step of the scanner at start-of-lexeme position `i`: where
/// the cursor moves, and the token or diagnostic the step emits.
#[verifier::ext_equal]
pub ghost struct Step {
    pub next: int,
    pub token: Option<SpecToken>,
    pub diag: Option<SpecDiag>,
}

/// The token scanned from `code[i..j)`, positioned at `(i, line, col)`.
pub open spec fn token_at(code: Seq<u8>, kind: Token, i: int, j: int, line: int, col: int) -> SpecToken {
    SpecToken { kind, lexeme: code.subrange(i, j), offset: i, line, column: col }
}

/// The end-of-input sentinel token.
pub open spec fn eof_token(i: int, line: int, col: int) -> SpecToken {
    SpecToken { kind: Token::EOF, lexeme: Seq::<u8>::empty(), offset: i, line, column: col }
}

/// A step that consumes one byte and emits a single-character token.
pub open spec fn simple_step(code: Seq<u8>, kind: Token, i: int, line: int, col: int) -> Step {
    Step { next: i + 1, token: Some(token_at(code, kind, i, i + 1, line, col)), diag: None }
}

/// A step for `! = > <`: one byte of lookahead decides between the combined
/// two-character kind and the single-character kind.
pub open spec fn pair_step(code: Seq<u8>, i: int, line: int, col: int, two: Token, one: Token) -> Step {
    if i + 1 < code.len() && code[i + 1] == 61 {
        Step { next: i + 2, token: Some(token_at(code, two, i, i + 2, line, col)), diag: None }
    } else {
        simple_step(code, one, i, line, col)
    }
}

/// The dispatch table: what one iteration of the scanner does with the byte
/// at start-of-lexeme position `i`, standing at `line` and column `col`.
pub open spec fn step_at(code: Seq<u8>, i: int, line: int, col: int) -> Step
    recommends
        0 <= i < code.len(),
{
    let c = code[i];
    if c == 40 {
        simple_step(code, Token::LeftParen, i, line, col)
    } else if c == 41 {
        simple_step(code, Token::RightParen, i, line, col)
    } else if c == 123 {
        simple_step(code, Token::LeftBrace, i, line, col)
    } else if c == 125 {
        simple_step(code, Token::RightBrace, i, line, col)
    } else if c == 46 {
        simple_step(code, Token::Dot, i, line, col)
    } else if c == 44 {
        simple_step(code, Token::Comma, i, line, col)
    } else if c == 59 {
        simple_step(code, Token::Semicolon, i, line, col)
    } else if c == 45 {
        simple_step(code, Token::Minus, i, line, col)
    } else if c == 43 {
        simple_step(code, Token::Plus, i, line, col)
    } else if c == 42 {
        simple_step(code, Token::Star, i, line, col)
    } else if c == 33 {
        pair_step(code, i, line, col, Token::BangEqual, Token::Bang)
    } else if c == 61 {
        pair_step(code, i, line, col, Token::EqualEqual, Token::Equal)
    } else if c == 62 {
        pair_step(code, i, line, col, Token::GreaterEqual, Token::Greater)
    } else if c == 60 {
        pair_step(code, i, line, col, Token::LessEqual, Token::Less)
    } else if c == 47 {
        if i + 1 < code.len() && code[i + 1] == 47 {
            Step { next: comment_end(code, i + 1), token: None, diag: None }
        } else {
            simple_step(code, Token::Slash, i, line, col)
        }
    } else if c == 10 {
        Step { next: i + 1, token: None, diag: None }
    } else if c == 34 {
        match string_close(code, i + 1) {
            Some(q) => (Step {
                next: q + 1,
                token: Some(token_at(code, Token::String, i, q + 1, line, col)),
                diag: None,
            }),
            None => (Step {
                next: code.len() as int,
                token: None,
                diag: Some(SpecDiag::UnterminatedString { line }),
            }),
        }
    } else if is_digit(c) {
        let j = number_end(code, i + 1);
        Step { next: j, token: Some(token_at(code, Token::Number, i, j, line, col)), diag: None }
    } else if is_alpha(c) {
        let j = ident_end(code, i + 1);
        Step {
            next: j,
            token: Some(token_at(code, keyword_kind(code.subrange(i, j)), i, j, line, col)),
            diag: None,
        }
    } else if is_space(c) {
        Step { next: i + 1, token: None, diag: None }
    } else {
        Step {
            next: i + 1,
            token: None,
            diag: Some(SpecDiag::UnexpectedCharacter { character: c, line, column: col }),
        }
    }
}

/// The sequence an `Option` contributes to a scan result: its element, or
/// nothing.
pub open spec fn opt_seq<A>(o: Option<A>) -> Seq<A> {
    match o {
        Some(a) => seq![a],
        None => Seq::<A>::empty(),
    }
}

/// A full scan result: the ordered token records and the diagnostics.
#[verifier::ext_equal]
pub ghost struct ScanOut {
    pub tokens: Seq<SpecToken>,
    pub diags: Seq<SpecDiag>,
}

/// Everything the scanner emits from position `i` on, standing at `line` and
/// column `col`: one step's token and diagnostic, then the rest; at the end
/// of the input, the end-of-input token alone.
pub open spec fn scan_from(code: Seq<u8>, i: int, line: int, col: int) -> ScanOut
    decreases code.len() - i
        when 0 <= i <= code.len() via scan_from_decreases
{
    if i >= code.len() {
        ScanOut { tokens: seq![eof_token(i, line, col)], diags: Seq::<SpecDiag>::empty() }
    } else {
        let st = step_at(code, i, line, col);
        let rest = scan_from(
            code,
            st.next,
            line + newline_count(code, i, st.next),
            col_after(code, i, st.next, col),
        );
        ScanOut { tokens: opt_seq(st.token) + rest.tokens, diags: opt_seq(st.diag) + rest.diags }
    }
}

#[via_fn]
proof fn scan_from_decreases(code: Seq<u8>, i: int, line: int, col: int) {
    if 0 <= i < code.len() {
        lemma_step_in_range(code, i, line, col);
    }
}

/// The whole scan of a source buffer, from its first byte, at line 1 and
/// column 0.
pub open spec fn scan_spec(code: Seq<u8>) -> ScanOut {
    scan_from(code, 0, 1, 0)
}

/// A maximal digit run stays inside the input, consists of digits, and is
/// not followed by a digit.
pub proof fn lemma_digits_end(code: Seq<u8>, i: int)
    requires
        0 <= i <= code.len(),
    ensures
        i <= digits_end(code, i) <= code.len(),
        forall|p: int| i <= p < digits_end(code, i) ==> is_digit(code[p]),
        digits_end(code, i) < code.len() ==> !is_digit(code[digits_end(code, i)]),
    decreases code.len() - i,
{
    if i < code.len() && is_digit(code[i]) {
        lemma_digits_end(code, i + 1);
    }
}

/// A maximal identifier run stays inside the input, consists of
/// identifier-continuation bytes, and is not followed by one.
pub proof fn lemma_ident_end(code: Seq<u8>, i: int)
    requires
        0 <= i <= code.len(),
    ensures
        i <= ident_end(code, i) <= code.len(),
        forall|p: int| i <= p < ident_end(code, i) ==> is_ident_continue(code[p]),
        ident_end(code, i) < code.len() ==> !is_ident_continue(code[ident_end(code, i)]),
    decreases code.len() - i,
{
    if i < code.len() && is_ident_continue(code[i]) {
        lemma_ident_end(code, i + 1);
    }
}

/// A comment consumes no line break: it stops at the first one, or at the
/// end of the input.
pub proof fn lemma_comment_end(code: Seq<u8>, i: int)
    requires
        0 <= i <= code.len(),
    ensures
        i <= comment_end(code, i) <= code.len(),
        forall|p: int| i <= p < comment_end(code, i) ==> code[p] != 10,
        comment_end(code, i) < code.len() ==> code[comment_end(code, i)] == 10,
    decreases code.len() - i,
{
    if i < code.len() && code[i] != 10 {
        lemma_comment_end(code, i + 1);
    }
}

/// A closing quote found by `string_close` lies inside the input, at or
/// after the content start, and holds a quote byte.
pub proof fn lemma_string_close(code: Seq<u8>, i: int)
    requires
        0 <= i <= code.len(),
        string_close(code, i) is Some,
    ensures
        i <= string_close(code, i)->Some_0 < code.len(),
        code[string_close(code, i)->Some_0] == 34,
    decreases code.len() - i,
{
    if i < code.len() {
        if code[i] == 34 {
        } else if code[i] == 92 {
            if i + 1 < code.len() {
                lemma_string_close(code, i + 2);
            }
        } else {
            lemma_string_close(code, i + 1);
        }
    }
}

/// There are never more line breaks in a range than bytes, and never a
/// negative count.
pub proof fn lemma_newline_count_bounds(code: Seq<u8>, i: int, j: int)
    requires
        i <= j,
    ensures
        0 <= newline_count(code, i, j) <= j - i,
    decreases j - i,
{
    if i < j {
        lemma_newline_count_bounds(code, i, j - 1);
    }
}

/// Line breaks are counted range by range: a split point divides the count.
pub proof fn lemma_newline_count_split(code: Seq<u8>, i: int, k: int, j: int)
    requires
        i <= k <= j,
    ensures
        newline_count(code, i, j) == newline_count(code, i, k) + newline_count(code, k, j),
    decreases j - k,
{
    if k < j {
        lemma_newline_count_split(code, i, k, j - 1);
    }
}

/// Column accounting composes: advancing from `i` to `j` may pass through
/// any intermediate position `k`.
pub proof fn lemma_col_after_split(code: Seq<u8>, i: int, k: int, j: int, col: int)
    requires
        i <= k <= j,
    ensures
        col_after(code, i, j, col) == col_after(code, k, j, col_after(code, i, k, col)),
    decreases j - k,
{
    if k < j {
        lemma_col_after_split(code, i, k, j - 1, col);
    }
}

/// The column after a range is never negative and never exceeds the start
/// column plus the range's width.
pub proof fn lemma_col_after_bounds(code: Seq<u8>, i: int, j: int, col: int)
    requires
        i <= j,
        0 <= col,
    ensures
        0 <= col_after(code, i, j, col) <= col + (j - i),
    decreases j - i,
{
    if i < j {
        lemma_col_after_bounds(code, i, j - 1, col);
    }
}

/// Over a range without line breaks, the line count is unchanged and the
/// column advances exactly by the range's width.
pub proof fn lemma_no_newline_run(code: Seq<u8>, i: int, j: int, col: int)
    requires
        i <= j,
        forall|p: int| i <= p < j ==> code[p] != 10,
    ensures
        newline_count(code, i, j) == 0,
        col_after(code, i, j, col) == col + (j - i),
    decreases j - i,
{
    if i < j {
        lemma_no_newline_run(code, i, j - 1, col);
    }
}

/// Every dispatch step consumes at least one byte and stays inside the
/// input.
pub proof fn lemma_step_in_range(code: Seq<u8>, i: int, line: int, col: int)
    ensures
        0 <= i < code.len() ==> i < step_at(code, i, line, col).next <= code.len(),
{
    if 0 <= i < code.len() {
        let c = code[i];
        if c == 47 && i + 1 < code.len() && code[i + 1] == 47 {
            lemma_comment_end(code, i + 1);
        } else if c == 34 {
            if string_close(code, i + 1) is Some {
                lemma_string_close(code, i + 1);
            }
        } else if is_digit(c) {
            lemma_digits_end(code, i + 1);
            let d = digits_end(code, i + 1);
            if 0 <= d < code.len() && code[d] == 46 {
                lemma_digits_end(code, d + 1);
            }
        } else if is_alpha(c) {
            lemma_ident_end(code, i + 1);
        }
    }
}

} // verus!
