//! The scanner: a single-pass cursor over an immutable byte buffer that
//! produces the ordered token sequence and the diagnostic list that the
//! model in `crate::model` specifies.

use vstd::prelude::*;
use vstd::slice::slice_subrange;
use crate::model::{
    col_after, column_at, comment_end, digits_end, ident_end, keyword_kind, line_at,
    newline_count, number_end, opt_seq, scan_from, scan_spec, step_at, string_close, token_at,
    eof_token, lemma_col_after_bounds, lemma_col_after_split, lemma_comment_end,
    lemma_digits_end, lemma_ident_end, lemma_newline_count_bounds, lemma_newline_count_split,
    lemma_no_newline_run,
};
use crate::token::{Diagnostic, SpecDiag, SpecToken, Token, TokenData};

verus! {

/// Counting one byte changes the line count by one exactly when that byte is
/// a line break.
proof fn lemma_newline_count_one(code: Seq<u8>, i: int)
    ensures
        newline_count(code, i, i + 1) == if code[i] == 10 {
            1int
        } else {
            0int
        },
{
    assert(newline_count(code, i, i) == 0);
}

/// Consuming one byte advances the column by one, or resets it at a line
/// break.
proof fn lemma_col_after_one(code: Seq<u8>, i: int, col: int)
    ensures
        col_after(code, i, i + 1, col) == if code[i] == 10 {
            0int
        } else {
            col + 1
        },
{
    assert(col_after(code, i, i, col) == col);
}

/// The single-pass scanner: a cursor over a caller-owned byte buffer, the
/// position bookkeeping, and the growing token and diagnostic lists.
pub struct Scanner<'a> {
    code: &'a [u8],
    start: usize,
    next_offset: usize,
    column: usize,
    line: usize,
    token_data_list: Vec<TokenData<'a>>,
    diagnostics: Vec<Diagnostic>,
}

impl<'a> Scanner<'a> {
    /// The source buffer being scanned.
    pub closed spec fn src(self) -> Seq<u8> {
        self.code@
    }

    /// The token records emitted so far.
    pub closed spec fn tokens(self) -> Seq<SpecToken> {
        self.token_data_list.deep_view()
    }

    /// The diagnostics recorded so far.
    pub closed spec fn diags(self) -> Seq<SpecDiag> {
        self.diagnostics.deep_view()
    }

    /// The scanner's cursor state is inside the buffer. The buffer is
    /// strictly shorter than `usize::MAX`, so line and column counters
    /// cannot wrap.
    pub closed spec fn wf(self) -> bool {
        self.start <= self.next_offset <= self.code@.len() && self.code@.len() < usize::MAX
    }

    /// A freshly constructed scanner: cursor at the first byte, line 1,
    /// column 0, nothing emitted yet.
    pub closed spec fn at_start(self) -> bool {
        &&& self.next_offset == 0
        &&& self.start == 0
        &&& self.line == 1
        &&& self.column == 0
        &&& self.token_data_list@.len() == 0
        &&& self.diagnostics@.len() == 0
    }

    /// Constructs a scanner over a caller-owned, immutable buffer.
    pub fn new(code: &'a [u8]) -> (s: Scanner<'a>)
        requires
            code@.len() < usize::MAX,
        ensures
            s.wf(),
            s.at_start(),
            s.src() == code@,
    {
        Scanner {
            code,
            start: 0,
            next_offset: 0,
            column: 0,
            line: 1,
            token_data_list: Vec::new(),
            diagnostics: Vec::new(),
        }
    }

    /// Whether the cursor has reached the end of the input.
    fn is_eof(&self) -> (r: bool)
        requires
            self.wf(),
        ensures
            r == (self.next_offset == self.code@.len()),
    {
        self.next_offset >= self.code.len()
    }

    /// Consumes and returns the byte at the cursor, or `None` at the end of
    /// the input.
    fn advance(&mut self) -> (r: Option<u8>)
        requires
            old(self).wf(),
        ensures
            final(self).wf(),
            final(self).code == old(self).code,
            final(self).start == old(self).start,
            final(self).line == old(self).line,
            final(self).column == old(self).column,
            final(self).token_data_list == old(self).token_data_list,
            final(self).diagnostics == old(self).diagnostics,
            old(self).next_offset == old(self).code@.len() ==> r is None && final(self).next_offset
                == old(self).next_offset,
            old(self).next_offset < old(self).code@.len() ==> r == Some(
                old(self).code@[old(self).next_offset as int],
            ) && final(self).next_offset == old(self).next_offset + 1,
    {
        if self.next_offset >= self.code.len() {
            return None;
        }
        let b = *vstd::slice::slice_index_get(self.code, self.next_offset);
        self.next_offset = self.next_offset + 1;
        Some(b)
    }

    /// Whether the byte at the cursor exists and equals `b` (one byte of
    /// lookahead; consumes nothing).
    fn is_next(&self, b: u8) -> (r: bool)
        requires
            self.wf(),
        ensures
            r == (self.next_offset < self.code@.len() && self.code@[self.next_offset as int] == b),
    {
        if self.next_offset >= self.code.len() {
            return false;
        }
        *vstd::slice::slice_index_get(self.code, self.next_offset) == b
    }

    /// Whether the byte at the cursor exists and is an ASCII digit.
    fn is_next_digit(&self) -> (r: bool)
        requires
            self.wf(),
        ensures
            r == (self.next_offset < self.code@.len() && crate::model::is_digit(
                self.code@[self.next_offset as int],
            )),
    {
        if self.next_offset >= self.code.len() {
            return false;
        }
        let b = *vstd::slice::slice_index_get(self.code, self.next_offset);
        48 <= b && b <= 57
    }

    /// Whether the byte at the cursor exists and may continue an identifier.
    fn is_next_ident_char(&self) -> (r: bool)
        requires
            self.wf(),
        ensures
            r == (self.next_offset < self.code@.len() && crate::model::is_ident_continue(
                self.code@[self.next_offset as int],
            )),
    {
        if self.next_offset >= self.code.len() {
            return false;
        }
        let b = *vstd::slice::slice_index_get(self.code, self.next_offset);
        (48 <= b && b <= 57) || (97 <= b && b <= 122) || (65 <= b && b <= 90) || b == 95
    }

    /// The bytes of the lexeme currently being scanned: from its start up to
    /// but excluding the cursor.
    fn get_lexeme(&self) -> (r: &'a [u8])
        requires
            self.wf(),
        ensures
            r@ == self.code@.subrange(self.start as int, self.next_offset as int),
    {
        slice_subrange(self.code, self.start, self.next_offset)
    }

    /// Appends one token record for the current lexeme, at the current
    /// position.
    fn add_token(&mut self, token: Token)
        requires
            old(self).wf(),
        ensures
            final(self).wf(),
            final(self).code == old(self).code,
            final(self).start == old(self).start,
            final(self).next_offset == old(self).next_offset,
            final(self).line == old(self).line,
            final(self).column == old(self).column,
            final(self).diagnostics == old(self).diagnostics,
            final(self).token_data_list.deep_view() == old(self).token_data_list.deep_view().push(
                token_at(
                    old(self).code@,
                    token,
                    old(self).start as int,
                    old(self).next_offset as int,
                    old(self).line as int,
                    old(self).column as int,
                ),
            ),
    {
        let lexeme = self.get_lexeme();
        let td = TokenData::new(token, lexeme, self.start, self.line, self.column);
        self.token_data_list.push(td);
        proof {
            assert(self.token_data_list.deep_view() =~= old(self).token_data_list.deep_view().push(
                token_at(
                    old(self).code@,
                    token,
                    old(self).start as int,
                    old(self).next_offset as int,
                    old(self).line as int,
                    old(self).column as int,
                ),
            ));
        }
    }

    /// Records one recoverable diagnostic; the scan goes on.
    fn add_diagnostic(&mut self, d: Diagnostic)
        requires
            old(self).wf(),
        ensures
            final(self).wf(),
            final(self).code == old(self).code,
            final(self).start == old(self).start,
            final(self).next_offset == old(self).next_offset,
            final(self).line == old(self).line,
            final(self).column == old(self).column,
            final(self).token_data_list == old(self).token_data_list,
            final(self).diagnostics.deep_view() == old(self).diagnostics.deep_view().push(d@),
    {
        self.diagnostics.push(d);
        proof {
            assert(self.diagnostics.deep_view() =~= old(self).diagnostics.deep_view().push(d@));
        }
    }

    /// Emits the single-character token `false_token`, or consumes one more
    /// byte and emits `true_token` when the byte at the cursor is `next_b`.
    fn add_token_if_next(&mut self, next_b: u8, true_token: Token, false_token: Token)
        requires
            old(self).wf(),
            old(self).start + 1 == old(self).next_offset,
        ensures
            final(self).wf(),
            final(self).code == old(self).code,
            final(self).start == old(self).start,
            final(self).line == old(self).line,
            final(self).column == old(self).column,
            final(self).diagnostics == old(self).diagnostics,
            ({
                let code = old(self).code@;
                let i = old(self).start as int;
                if i + 1 < code.len() && code[i + 1] == next_b {
                    final(self).next_offset == i + 2 && final(self).token_data_list.deep_view()
                        == old(self).token_data_list.deep_view().push(
                        token_at(
                            code,
                            true_token,
                            i,
                            i + 2,
                            old(self).line as int,
                            old(self).column as int,
                        ),
                    )
                } else {
                    final(self).next_offset == i + 1 && final(self).token_data_list.deep_view()
                        == old(self).token_data_list.deep_view().push(
                        token_at(
                            code,
                            false_token,
                            i,
                            i + 1,
                            old(self).line as int,
                            old(self).column as int,
                        ),
                    )
                }
            }),
    {
        if self.is_next(next_b) {
            self.advance();
            self.add_token(true_token);
        } else {
            self.add_token(false_token);
        }
    }

    /// Consumes the rest of the line, up to but excluding the next line
    /// break: how a comment's body is discarded.
    fn ignore_until_end(&mut self)
        requires
            old(self).wf(),
        ensures
            final(self).wf(),
            final(self).code == old(self).code,
            final(self).start == old(self).start,
            final(self).line == old(self).line,
            final(self).column == old(self).column,
            final(self).token_data_list == old(self).token_data_list,
            final(self).diagnostics == old(self).diagnostics,
            final(self).next_offset as int == comment_end(
                old(self).code@,
                old(self).next_offset as int,
            ),
    {
        let ghost i0 = self.next_offset as int;
        let ghost code = self.code@;
        while !self.is_next(10) && !self.is_eof()
            invariant
                self.wf(),
                self.code@ == code,
                self.code == old(self).code,
                self.start == old(self).start,
                self.line == old(self).line,
                self.column == old(self).column,
                self.token_data_list == old(self).token_data_list,
                self.diagnostics == old(self).diagnostics,
                i0 <= self.next_offset as int,
                comment_end(code, i0) == comment_end(code, self.next_offset as int),
            decreases code.len() - self.next_offset as int,
        {
            self.advance();
        }
    }

    /// Emits the division token, or discards a `//` comment to the end of
    /// the line.
    fn add_token_division_or_comment(&mut self)
        requires
            old(self).wf(),
            old(self).start + 1 == old(self).next_offset,
        ensures
            final(self).wf(),
            final(self).code == old(self).code,
            final(self).start == old(self).start,
            final(self).line == old(self).line,
            final(self).column == old(self).column,
            final(self).diagnostics == old(self).diagnostics,
            ({
                let code = old(self).code@;
                let i = old(self).start as int;
                if i + 1 < code.len() && code[i + 1] == 47 {
                    final(self).next_offset as int == comment_end(code, i + 1) && final(self).token_data_list == old(self).token_data_list
                } else {
                    final(self).next_offset == i + 1 && final(self).token_data_list.deep_view()
                        == old(self).token_data_list.deep_view().push(
                        token_at(
                            code,
                            Token::Slash,
                            i,
                            i + 1,
                            old(self).line as int,
                            old(self).column as int,
                        ),
                    )
                }
            }),
    {
        if self.is_next(47) {
            self.ignore_until_end();
        } else {
            self.add_token(Token::Slash);
        }
    }

    /// Consumes a line break: the line counter advances and the column
    /// resets.
    fn mark_new_line(&mut self)
        requires
            old(self).wf(),
            old(self).line < usize::MAX,
        ensures
            final(self).wf(),
            final(self).code == old(self).code,
            final(self).start == old(self).start,
            final(self).next_offset == old(self).next_offset,
            final(self).line == old(self).line + 1,
            final(self).column == 0,
            final(self).token_data_list == old(self).token_data_list,
            final(self).diagnostics == old(self).diagnostics,
    {
        self.line = self.line + 1;
        self.column = 0;
    }

    /// Scans the rest of a string literal whose opening quote was just
    /// consumed, emitting one string token, or recording an
    /// unterminated-string diagnostic when the input ends first. Line breaks
    /// inside the literal are counted; the token is positioned at the
    /// opening quote.
    fn add_token_string(&mut self)
        requires
            old(self).wf(),
            old(self).start + 1 == old(self).next_offset,
            old(self).code@[old(self).start as int] == 34,
            old(self).column <= old(self).start,
            old(self).line as int == line_at(old(self).code@, old(self).start as int),
        ensures
            final(self).wf(),
            final(self).code == old(self).code,
            final(self).start == old(self).start,
            ({
                let code = old(self).code@;
                let i = old(self).start as int;
                let j = final(self).next_offset as int;
                &&& final(self).line as int == old(self).line + newline_count(code, i, j)
                &&& final(self).column as int == col_after(code, i, j, old(self).column as int)
                &&& match string_close(code, i + 1) {
                    Some(q) => {
                        &&& j == q + 1
                        &&& final(self).token_data_list.deep_view() == old(self).token_data_list.deep_view().push(
                            token_at(
                                code,
                                Token::String,
                                i,
                                q + 1,
                                old(self).line as int,
                                old(self).column as int,
                            ),
                        )
                        &&& final(self).diagnostics == old(self).diagnostics
                    },
                    None => {
                        &&& j == code.len()
                        &&& final(self).token_data_list == old(self).token_data_list
                        &&& final(self).diagnostics.deep_view() == old(self).diagnostics.deep_view().push(
                            SpecDiag::UnterminatedString { line: old(self).line as int },
                        )
                    },
                }
            }),
    {
        let ghost code = self.code@;
        let ghost i = self.start as int;
        let ghost col0 = self.column as int;
        let mut nl_add: usize = 0;
        let mut cur: usize = self.column + 1;
        proof {
            lemma_newline_count_one(code, i);
            lemma_col_after_one(code, i, col0);
        }
        loop
            invariant_except_break
                self.wf(),
                self.code@ == code,
                self.code == old(self).code,
                self.start == old(self).start,
                self.start as int == i,
                self.line == old(self).line,
                self.column == old(self).column,
                self.column as int == col0,
                self.token_data_list == old(self).token_data_list,
                self.diagnostics == old(self).diagnostics,
                i + 1 <= self.next_offset as int <= code.len(),
                code.len() < usize::MAX,
                col0 <= i,
                old(self).line as int == line_at(code, i),
                string_close(code, i + 1) == string_close(code, self.next_offset as int),
                nl_add as int == newline_count(code, i, self.next_offset as int),
                cur as int == col_after(code, i, self.next_offset as int, col0),
            ensures
                self.wf(),
                self.code == old(self).code,
                self.start == old(self).start,
                ({
                    let j = self.next_offset as int;
                    &&& self.line as int == old(self).line + newline_count(code, i, j)
                    &&& self.column as int == col_after(code, i, j, col0)
                    &&& match string_close(code, i + 1) {
                        Some(q) => {
                            &&& j == q + 1
                            &&& self.token_data_list.deep_view() == old(self).token_data_list.deep_view().push(
                                token_at(
                                    code,
                                    Token::String,
                                    i,
                                    q + 1,
                                    old(self).line as int,
                                    col0,
                                ),
                            )
                            &&& self.diagnostics == old(self).diagnostics
                        },
                        None => {
                            &&& j == code.len()
                            &&& self.token_data_list == old(self).token_data_list
                            &&& self.diagnostics.deep_view() == old(self).diagnostics.deep_view().push(
                                SpecDiag::UnterminatedString { line: old(self).line as int },
                            )
                        },
                    }
                }),
            decreases code.len() - self.next_offset as int,
        {
            proof {
                lemma_newline_count_bounds(code, i, self.next_offset as int);
                lemma_col_after_bounds(code, i, self.next_offset as int, col0);
                lemma_newline_count_split(code, 0, i, self.next_offset as int);
                lemma_newline_count_bounds(code, 0, i);
            }
            let ghost p = self.next_offset as int;
            match self.advance() {
                None => {
                    // The input ended before a closing quote.
                    self.add_diagnostic(Diagnostic::UnterminatedString { line: self.line });
                    self.line = self.line + nl_add;
                    self.column = cur;
                    break ;
                },
                Some(b) => {
                    proof {
                        lemma_newline_count_one(code, p);
                        lemma_col_after_one(code, p, cur as int);
                        lemma_newline_count_split(code, i, p, p + 1);
                        lemma_col_after_split(code, i, p, p + 1, col0);
                    }
                    if b == 10 {
                        nl_add = nl_add + 1;
                        cur = 0;
                    } else {
                        cur = cur + 1;
                    }
                    if b == 34 {
                        // The closing quote: the lexeme spans both quotes.
                        self.add_token(Token::String);
                        self.line = self.line + nl_add;
                        self.column = cur;
                        break ;
                    } else if b == 92 {
                        // An escape consumes the following byte, whatever it
                        // is, so an escaped quote does not close the literal.
                        let ghost p2 = self.next_offset as int;
                        match self.advance() {
                            None => {
                            },
                            Some(b2) => {
                                proof {
                                    lemma_newline_count_one(code, p2);
                                    lemma_col_after_one(code, p2, cur as int);
                                    lemma_newline_count_split(code, i, p2, p2 + 1);
                                    lemma_col_after_split(code, i, p2, p2 + 1, col0);
                                }
                                if b2 == 10 {
                                    nl_add = nl_add + 1;
                                    cur = 0;
                                } else {
                                    cur = cur + 1;
                                }
                            },
                        }
                    }
                },
            }
        }
    }

    /// Scans the rest of a number literal whose first digit was just
    /// consumed: the remaining digits, then optionally a dot and a possibly
    /// empty fraction part.
    fn add_token_number(&mut self)
        requires
            old(self).wf(),
            old(self).start + 1 == old(self).next_offset,
        ensures
            final(self).wf(),
            final(self).code == old(self).code,
            final(self).start == old(self).start,
            final(self).line == old(self).line,
            final(self).column == old(self).column,
            final(self).diagnostics == old(self).diagnostics,
            final(self).next_offset as int == number_end(
                old(self).code@,
                old(self).next_offset as int,
            ),
            final(self).token_data_list.deep_view() == old(self).token_data_list.deep_view().push(
                token_at(
                    old(self).code@,
                    Token::Number,
                    old(self).start as int,
                    number_end(old(self).code@, old(self).next_offset as int),
                    old(self).line as int,
                    old(self).column as int,
                ),
            ),
    {
        let ghost code = self.code@;
        let ghost i1 = self.next_offset as int;
        while self.is_next_digit()
            invariant
                self.wf(),
                self.code@ == code,
                self.code == old(self).code,
                self.start == old(self).start,
                self.line == old(self).line,
                self.column == old(self).column,
                self.token_data_list == old(self).token_data_list,
                self.diagnostics == old(self).diagnostics,
                i1 <= self.next_offset as int,
                digits_end(code, i1) == digits_end(code, self.next_offset as int),
            decreases code.len() - self.next_offset as int,
        {
            self.advance();
        }
        let ghost d = self.next_offset as int;
        assert(d == digits_end(code, i1));
        if self.is_next(46) {
            self.advance();
            let ghost f1 = self.next_offset as int;
            while self.is_next_digit()
                invariant
                    self.wf(),
                    self.code@ == code,
                    self.code == old(self).code,
                    self.start == old(self).start,
                    self.line == old(self).line,
                    self.column == old(self).column,
                    self.token_data_list == old(self).token_data_list,
                    self.diagnostics == old(self).diagnostics,
                    f1 <= self.next_offset as int,
                    digits_end(code, f1) == digits_end(code, self.next_offset as int),
                decreases code.len() - self.next_offset as int,
            {
                self.advance();
            }
        }
        self.add_token(Token::Number);
    }

    /// Scans the rest of an identifier whose first letter was just consumed,
    /// then classifies the whole lexeme against the keyword table.
    fn add_token_identifier_or_keyword(&mut self)
        requires
            old(self).wf(),
            old(self).start + 1 == old(self).next_offset,
        ensures
            final(self).wf(),
            final(self).code == old(self).code,
            final(self).start == old(self).start,
            final(self).line == old(self).line,
            final(self).column == old(self).column,
            final(self).diagnostics == old(self).diagnostics,
            final(self).next_offset as int == ident_end(
                old(self).code@,
                old(self).next_offset as int,
            ),
            final(self).token_data_list.deep_view() == old(self).token_data_list.deep_view().push(
                token_at(
                    old(self).code@,
                    keyword_kind(
                        old(self).code@.subrange(
                            old(self).start as int,
                            ident_end(old(self).code@, old(self).next_offset as int),
                        ),
                    ),
                    old(self).start as int,
                    ident_end(old(self).code@, old(self).next_offset as int),
                    old(self).line as int,
                    old(self).column as int,
                ),
            ),
    {
        let ghost code = self.code@;
        let ghost i1 = self.next_offset as int;
        while self.is_next_ident_char()
            invariant
                self.wf(),
                self.code@ == code,
                self.code == old(self).code,
                self.start == old(self).start,
                self.line == old(self).line,
                self.column == old(self).column,
                self.token_data_list == old(self).token_data_list,
                self.diagnostics == old(self).diagnostics,
                i1 <= self.next_offset as int,
                ident_end(code, i1) == ident_end(code, self.next_offset as int),
            decreases code.len() - self.next_offset as int,
        {
            self.advance();
        }
        let lexeme = self.get_lexeme();
        let token = keyword_token(lexeme);
        self.add_token(token);
    }

    /// One iteration of the scan: dispatches on the byte at the cursor and
    /// performs exactly the step that the model's `step_at` describes; at
    /// the end of the input it emits the end-of-input token and reports
    /// that the scan is over.
    #[verifier::rlimit(50)]
    fn scan_token(&mut self) -> (more: bool)
        requires
            old(self).wf(),
            old(self).start == old(self).next_offset,
            old(self).line as int == line_at(old(self).code@, old(self).next_offset as int),
            old(self).column as int == column_at(old(self).code@, old(self).next_offset as int),
        ensures
            final(self).wf(),
            final(self).code == old(self).code,
            ({
                let code = old(self).code@;
                let i = old(self).next_offset as int;
                let line0 = old(self).line as int;
                let col0 = old(self).column as int;
                if i < code.len() {
                    let st = step_at(code, i, line0, col0);
                    &&& more
                    &&& final(self).next_offset as int == st.next
                    &&& final(self).line as int == line0 + newline_count(code, i, st.next)
                    &&& final(self).column as int == col_after(code, i, st.next, col0)
                    &&& final(self).token_data_list.deep_view() == old(
                        self,
                    ).token_data_list.deep_view() + opt_seq(st.token)
                    &&& final(self).diagnostics.deep_view() == old(self).diagnostics.deep_view()
                        + opt_seq(st.diag)
                } else {
                    &&& !more
                    &&& final(self).next_offset == old(self).next_offset
                    &&& final(self).line == old(self).line
                    &&& final(self).column == old(self).column
                    &&& final(self).token_data_list.deep_view() == old(
                        self,
                    ).token_data_list.deep_view().push(eof_token(i, line0, col0))
                    &&& final(self).diagnostics == old(self).diagnostics
                }
            }),
    {
        let ghost code = self.code@;
        let ghost i = self.next_offset as int;
        let ghost line0 = self.line as int;
        let ghost col0 = self.column as int;
        proof {
            lemma_col_after_bounds(code, 0, i, 0);
            lemma_newline_count_bounds(code, 0, i);
        }
        match self.advance() {
            None => {
                self.add_token(Token::EOF);
                proof {
                    assert(code.subrange(i, i) =~= Seq::<u8>::empty());
                    assert(token_at(code, Token::EOF, i, i, line0, col0) =~= eof_token(
                        i,
                        line0,
                        col0,
                    ));
                }
                false
            },
            Some(c) => {
                if c == 10 {
                    self.mark_new_line();
                    proof {
                        lemma_newline_count_one(code, i);
                        lemma_col_after_one(code, i, col0);
                    }
                } else if c == 34 {
                    self.add_token_string();
                } else {
                    if c == 40 {
                        self.add_token(Token::LeftParen);
                    } else if c == 41 {
                        self.add_token(Token::RightParen);
                    } else if c == 123 {
                        self.add_token(Token::LeftBrace);
                    } else if c == 125 {
                        self.add_token(Token::RightBrace);
                    } else if c == 46 {
                        self.add_token(Token::Dot);
                    } else if c == 44 {
                        self.add_token(Token::Comma);
                    } else if c == 59 {
                        self.add_token(Token::Semicolon);
                    } else if c == 45 {
                        self.add_token(Token::Minus);
                    } else if c == 43 {
                        self.add_token(Token::Plus);
                    } else if c == 42 {
                        self.add_token(Token::Star);
                    } else if c == 33 {
                        self.add_token_if_next(61, Token::BangEqual, Token::Bang);
                    } else if c == 61 {
                        self.add_token_if_next(61, Token::EqualEqual, Token::Equal);
                    } else if c == 62 {
                        self.add_token_if_next(61, Token::GreaterEqual, Token::Greater);
                    } else if c == 60 {
                        self.add_token_if_next(61, Token::LessEqual, Token::Less);
                    } else if c == 47 {
                        self.add_token_division_or_comment();
                    } else if 48 <= c && c <= 57 {
                        self.add_token_number();
                    } else if (97 <= c && c <= 122) || (65 <= c && c <= 90) {
                        self.add_token_identifier_or_keyword();
                    } else if c == 32 || c == 9 || c == 13 || c == 11 || c == 12 {
                        // Whitespace other than a line break produces no token.
                    } else {
                        self.add_diagnostic(
                            Diagnostic::UnexpectedCharacter {
                                character: c,
                                line: self.line,
                                column: self.column,
                            },
                        );
                    }
                    proof {
                        if 48 <= c && c <= 57 {
                            lemma_digits_end(code, i + 1);
                            let d = digits_end(code, i + 1);
                            if 0 <= d < code.len() && code[d] == 46 {
                                lemma_digits_end(code, d + 1);
                            }
                        } else if (97 <= c && c <= 122) || (65 <= c && c <= 90) {
                            lemma_ident_end(code, i + 1);
                        } else if c == 47 {
                            lemma_comment_end(code, i + 1);
                        }
                        let j = self.next_offset as int;
                        assert(forall|p: int| i <= p < j ==> code[p] != 10);
                        lemma_no_newline_run(code, i, j, col0);
                    }
                    self.column = self.column + (self.next_offset - self.start);
                }
                proof {
                    let st = step_at(code, i, line0, col0);
                    assert(self.token_data_list.deep_view() =~= old(
                        self,
                    ).token_data_list.deep_view() + opt_seq(st.token));
                    assert(self.diagnostics.deep_view() =~= old(self).diagnostics.deep_view()
                        + opt_seq(st.diag));
                }
                true
            },
        }
    }

    /// Consumes the buffer once and returns the full token sequence: the
    /// result, and the scanner's state afterwards, are exactly what the
    /// model's `scan_spec` gives for this source. The diagnostics the scan
    /// recorded are available through `diagnostics`.
    pub fn scan(&mut self) -> (r: &Vec<TokenData<'a>>)
        requires
            old(self).wf(),
            old(self).at_start(),
        ensures
            final(self).wf(),
            final(self).src() == old(self).src(),
            final(self).tokens() == scan_spec(old(self).src()).tokens,
            final(self).diags() == scan_spec(old(self).src()).diags,
            r.deep_view() == scan_spec(old(self).src()).tokens,
    {
        let ghost code = self.code@;
        proof {
            assert(self.token_data_list.deep_view() =~= Seq::<SpecToken>::empty());
            assert(self.diagnostics.deep_view() =~= Seq::<SpecDiag>::empty());
            assert(scan_spec(code).tokens =~= self.token_data_list.deep_view() + scan_from(
                code,
                0,
                1,
                0,
            ).tokens);
            assert(scan_spec(code).diags =~= self.diagnostics.deep_view() + scan_from(
                code,
                0,
                1,
                0,
            ).diags);
            assert(newline_count(code, 0, 0) == 0);
            assert(col_after(code, 0, 0, 0) == 0);
        }
        loop
            invariant_except_break
                self.wf(),
                self.code == old(self).code,
                self.code@ == code,
                self.line as int == line_at(code, self.next_offset as int),
                self.column as int == column_at(code, self.next_offset as int),
                scan_spec(code).tokens == self.token_data_list.deep_view() + scan_from(
                    code,
                    self.next_offset as int,
                    self.line as int,
                    self.column as int,
                ).tokens,
                scan_spec(code).diags == self.diagnostics.deep_view() + scan_from(
                    code,
                    self.next_offset as int,
                    self.line as int,
                    self.column as int,
                ).diags,
            ensures
                self.wf(),
                self.code == old(self).code,
                self.token_data_list.deep_view() == scan_spec(code).tokens,
                self.diagnostics.deep_view() == scan_spec(code).diags,
            decreases code.len() - self.next_offset as int,
        {
            self.start = self.next_offset;
            let ghost i = self.next_offset as int;
            let ghost line1 = self.line as int;
            let ghost col1 = self.column as int;
            let ghost acc_t = self.token_data_list.deep_view();
            let ghost acc_d = self.diagnostics.deep_view();
            let more = self.scan_token();
            proof {
                if i < code.len() {
                    let st = step_at(code, i, line1, col1);
                    crate::model::lemma_step_in_range(code, i, line1, col1);
                    lemma_newline_count_split(code, 0, i, st.next);
                    lemma_col_after_split(code, 0, i, st.next, 0);
                    let nl = newline_count(code, i, st.next);
                    let nc = col_after(code, i, st.next, col1);
                    assert(scan_from(code, i, line1, col1).tokens == opt_seq(st.token)
                        + scan_from(code, st.next, line1 + nl, nc).tokens);
                    assert(scan_from(code, i, line1, col1).diags == opt_seq(st.diag) + scan_from(
                        code,
                        st.next,
                        line1 + nl,
                        nc,
                    ).diags);
                    assert(scan_spec(code).tokens =~= self.token_data_list.deep_view()
                        + scan_from(
                        code,
                        self.next_offset as int,
                        self.line as int,
                        self.column as int,
                    ).tokens);
                    assert(scan_spec(code).diags =~= self.diagnostics.deep_view() + scan_from(
                        code,
                        self.next_offset as int,
                        self.line as int,
                        self.column as int,
                    ).diags);
                } else {
                    assert(scan_from(code, i, line1, col1).tokens =~= seq![
                        eof_token(i, line1, col1),
                    ]);
                    assert(scan_from(code, i, line1, col1).diags =~= Seq::<SpecDiag>::empty());
                    assert(self.token_data_list.deep_view() =~= scan_spec(code).tokens);
                    assert(self.diagnostics.deep_view() =~= scan_spec(code).diags);
                }
            }
            if !more {
                break ;
            }
        }
        &self.token_data_list
    }

    /// The diagnostics recorded by the scan, beside the token list.
    pub fn diagnostics(&self) -> (d: &Vec<Diagnostic>)
        ensures
            d.deep_view() == self.diags(),
    {
        &self.diagnostics
    }
}

/// Classifies an identifier-shaped lexeme: the matching reserved word's
/// kind, or `Identifier` when the lexeme is no reserved word.
fn keyword_token(lex: &[u8]) -> (t: Token)
    ensures
        t == keyword_kind(lex@),
{
    let n = lex.len();
    if n == 2 {
        let b0 = *vstd::slice::slice_index_get(lex, 0);
        let b1 = *vstd::slice::slice_index_get(lex, 1);
        if b0 == 111 && b1 == 114 {
            return Token::Or;  // or
        }
        if b0 == 105 && b1 == 102 {
            return Token::If;  // if
        }
    } else if n == 3 {
        let b0 = *vstd::slice::slice_index_get(lex, 0);
        let b1 = *vstd::slice::slice_index_get(lex, 1);
        let b2 = *vstd::slice::slice_index_get(lex, 2);
        if b0 == 97 && b1 == 110 && b2 == 100 {
            return Token::And;  // and
        }
        if b0 == 102 && b1 == 111 && b2 == 114 {
            return Token::For;  // for
        }
        if b0 == 102 && b1 == 117 && b2 == 110 {
            return Token::Fun;  // fun
        }
        if b0 == 118 && b1 == 97 && b2 == 114 {
            return Token::Var;  // var
        }
        if b0 == 110 && b1 == 105 && b2 == 108 {
            return Token::Nil;  // nil
        }
    } else if n == 4 {
        let b0 = *vstd::slice::slice_index_get(lex, 0);
        let b1 = *vstd::slice::slice_index_get(lex, 1);
        let b2 = *vstd::slice::slice_index_get(lex, 2);
        let b3 = *vstd::slice::slice_index_get(lex, 3);
        if b0 == 116 && b1 == 104 && b2 == 105 && b3 == 115 {
            return Token::This;  // this
        }
        if b0 == 101 && b1 == 108 && b2 == 115 && b3 == 101 {
            return Token::Else;  // else
        }
        if b0 == 116 && b1 == 114 && b2 == 117 && b3 == 101 {
            return Token::True;  // true
        }
    } else if n == 5 {
        let b0 = *vstd::slice::slice_index_get(lex, 0);
        let b1 = *vstd::slice::slice_index_get(lex, 1);
        let b2 = *vstd::slice::slice_index_get(lex, 2);
        let b3 = *vstd::slice::slice_index_get(lex, 3);
        let b4 = *vstd::slice::slice_index_get(lex, 4);
        if b0 == 99 && b1 == 108 && b2 == 97 && b3 == 115 && b4 == 115 {
            return Token::Class;  // class
        }
        if b0 == 115 && b1 == 117 && b2 == 112 && b3 == 101 && b4 == 114 {
            return Token::Super;  // super
        }
        if b0 == 119 && b1 == 104 && b2 == 105 && b3 == 108 && b4 == 101 {
            return Token::While;  // while
        }
        if b0 == 112 && b1 == 114 && b2 == 105 && b3 == 110 && b4 == 116 {
            return Token::Print;  // print
        }
        if b0 == 102 && b1 == 97 && b2 == 108 && b3 == 115 && b4 == 101 {
            return Token::False;  // false
        }
    } else if n == 6 {
        let b0 = *vstd::slice::slice_index_get(lex, 0);
        let b1 = *vstd::slice::slice_index_get(lex, 1);
        let b2 = *vstd::slice::slice_index_get(lex, 2);
        let b3 = *vstd::slice::slice_index_get(lex, 3);
        let b4 = *vstd::slice::slice_index_get(lex, 4);
        let b5 = *vstd::slice::slice_index_get(lex, 5);
        if b0 == 114 && b1 == 101 && b2 == 116 && b3 == 117 && b4 == 114 && b5 == 110 {
            return Token::Return;  // return
        }
    }
    Token::Identifier
}

} // verus!
