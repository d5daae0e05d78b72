//! Laws of the scan, proved once and for all against the model: determinism,
//! span fidelity, the end-of-input sentinel, position monotonicity, the
//! two-character lookahead, whole-lexeme keyword matching, and comment
//! suppression.

use vstd::prelude::*;
use crate::model::{
    col_after, column_at, comment_end, keyword_kind, lemma_comment_end, lemma_newline_count_bounds,
    lemma_newline_count_split, lemma_step_in_range, line_at, newline_count, opt_seq, scan_from,
    scan_spec, step_at, token_at, ScanOut,
};
use crate::token::{SpecToken, Token};

verus! {


/// The span a token claims agrees with the source: its lexeme is the
/// substring of the source at its offset.
pub open spec fn token_span_ok(code: Seq<u8>, t: SpecToken) -> bool {
    &&& 0 <= t.offset <= code.len()
    &&& t.offset + t.lexeme.len() <= code.len()
    &&& t.lexeme == code.subrange(t.offset, t.offset + t.lexeme.len())
}

/// A token's recorded line and column are those of its own offset.
pub open spec fn token_position_ok(code: Seq<u8>, t: SpecToken) -> bool {
    &&& 0 <= t.offset <= code.len()
    &&& t.line == line_at(code, t.offset)
    &&& t.column == column_at(code, t.offset)
}

/// Determinism: scanning carries no hidden state, randomness or time
/// dependence, so any two scan results of the same source are identical.
/// `Scanner::scan` ensures its output equals `scan_spec` of the source, so
/// this pins every pair of runs to one another.
pub proof fn lemma_scan_deterministic(code: Seq<u8>, first: ScanOut, second: ScanOut)
    requires
        first == scan_spec(code),
        second == scan_spec(code),
    ensures
        first == second,
{
}

proof fn lemma_span_fidelity_from(code: Seq<u8>, i: int, line: int, col: int)
    requires
        0 <= i <= code.len(),
    ensures
        forall|k: int|
            0 <= k < scan_from(code, i, line, col).tokens.len() ==> i <= (#[trigger] scan_from(
                code,
                i,
                line,
                col,
            ).tokens[k]).offset && token_span_ok(code, scan_from(code, i, line, col).tokens[k]),
    decreases code.len() - i,
{
    let toks = scan_from(code, i, line, col).tokens;
    if i >= code.len() {
        assert(toks[0].lexeme =~= code.subrange(i, i));
    } else {
        let st = step_at(code, i, line, col);
        lemma_step_in_range(code, i, line, col);
        let rest = scan_from(
            code,
            st.next,
            line + newline_count(code, i, st.next),
            col_after(code, i, st.next, col),
        );
        lemma_span_fidelity_from(
            code,
            st.next,
            line + newline_count(code, i, st.next),
            col_after(code, i, st.next, col),
        );
        assert forall|k: int| 0 <= k < toks.len() implies i <= (toks[k]).offset && token_span_ok(
            code,
            toks[k],
        ) by {
            if k < opt_seq(st.token).len() {
                assert(toks[k] == st.token->Some_0);
            } else {
                assert(toks[k] == rest.tokens[k - opt_seq(st.token).len()]);
            }
        }
    }
}

/// Span fidelity: every token's lexeme is exactly the substring of the
/// source at `[offset, offset + lexeme.len())`.
pub proof fn lemma_span_fidelity(code: Seq<u8>)
    ensures
        forall|k: int|
            0 <= k < scan_spec(code).tokens.len() ==> token_span_ok(
                code,
                #[trigger] scan_spec(code).tokens[k],
            ),
{
    lemma_span_fidelity_from(code, 0, 1, 0);
}

proof fn lemma_termination_token_from(code: Seq<u8>, i: int, line: int, col: int)
    requires
        0 <= i <= code.len(),
    ensures
        scan_from(code, i, line, col).tokens.len() >= 1,
        scan_from(code, i, line, col).tokens.last().kind == Token::EOF,
        scan_from(code, i, line, col).tokens.last().lexeme.len() == 0,
        forall|k: int|
            0 <= k < scan_from(code, i, line, col).tokens.len() - 1 ==> #[trigger] scan_from(
                code,
                i,
                line,
                col,
            ).tokens[k].kind != Token::EOF,
    decreases code.len() - i,
{
    if i < code.len() {
        let st = step_at(code, i, line, col);
        lemma_step_in_range(code, i, line, col);
        lemma_termination_token_from(
            code,
            st.next,
            line + newline_count(code, i, st.next),
            col_after(code, i, st.next, col),
        );
        if st.token is Some {
            assert(st.token->Some_0.kind != Token::EOF);
        }
    }
}

/// Termination token: the last token of every scan is the end-of-input
/// sentinel with an empty lexeme, and no other token has that kind.
pub proof fn lemma_termination_token(code: Seq<u8>)
    ensures
        scan_spec(code).tokens.len() >= 1,
        scan_spec(code).tokens.last().kind == Token::EOF,
        scan_spec(code).tokens.last().lexeme.len() == 0,
        forall|k: int|
            0 <= k < scan_spec(code).tokens.len() - 1 ==> #[trigger] scan_spec(
                code,
            ).tokens[k].kind != Token::EOF,
{
    lemma_termination_token_from(code, 0, 1, 0);
}

/// More consumed source never means fewer line breaks seen: the line of a
/// later position is never smaller.
pub proof fn lemma_line_at_monotone(code: Seq<u8>, o1: int, o2: int)
    requires
        0 <= o1 <= o2,
    ensures
        line_at(code, o1) <= line_at(code, o2),
{
    lemma_newline_count_split(code, 0, o1, o2);
    lemma_newline_count_bounds(code, o1, o2);
}

/// The column immediately after a consumed line break is zero.
pub proof fn lemma_column_resets(code: Seq<u8>, o: int)
    requires
        0 < o,
        code[o - 1] == 10,
    ensures
        column_at(code, o) == 0,
{
}

proof fn lemma_positions_from(code: Seq<u8>, i: int, line: int, col: int)
    requires
        0 <= i <= code.len(),
        line == line_at(code, i),
        col == column_at(code, i),
    ensures
        forall|k: int|
            0 <= k < scan_from(code, i, line, col).tokens.len() ==> i <= (#[trigger] scan_from(
                code,
                i,
                line,
                col,
            ).tokens[k]).offset && token_position_ok(code, scan_from(code, i, line, col).tokens[k]),
        forall|k1: int, k2: int|
            0 <= k1 <= k2 < scan_from(code, i, line, col).tokens.len() ==> scan_from(
                code,
                i,
                line,
                col,
            ).tokens[k1].offset <= scan_from(code, i, line, col).tokens[k2].offset,
    decreases code.len() - i,
{
    let toks = scan_from(code, i, line, col).tokens;
    if i < code.len() {
        let st = step_at(code, i, line, col);
        lemma_step_in_range(code, i, line, col);
        let line2 = line + newline_count(code, i, st.next);
        let col2 = col_after(code, i, st.next, col);
        lemma_newline_count_split(code, 0, i, st.next);
        crate::model::lemma_col_after_split(code, 0, i, st.next, 0);
        assert(line2 == line_at(code, st.next));
        assert(col2 == column_at(code, st.next));
        lemma_positions_from(code, st.next, line2, col2);
        let rest = scan_from(code, st.next, line2, col2);
        assert forall|k: int| 0 <= k < toks.len() implies i <= (toks[k]).offset
            && token_position_ok(code, toks[k]) by {
            if k < opt_seq(st.token).len() {
                assert(toks[k] == st.token->Some_0);
            } else {
                assert(toks[k] == rest.tokens[k - opt_seq(st.token).len()]);
            }
        }
        assert forall|k1: int, k2: int| 0 <= k1 <= k2 < toks.len() implies toks[k1].offset
            <= toks[k2].offset by {
            let n0 = opt_seq(st.token).len();
            if k1 >= n0 {
                assert(toks[k1] == rest.tokens[k1 - n0]);
                assert(toks[k2] == rest.tokens[k2 - n0]);
            } else if k2 >= n0 {
                assert(toks[k2] == rest.tokens[k2 - n0]);
            }
        }
    }
}

/// Position monotonicity: every token carries the line and column of its
/// own offset (so columns restart at zero after each line break, as
/// `column_at` does), offsets never decrease along the sequence, and lines
/// never decrease either.
pub proof fn lemma_position_monotonicity(code: Seq<u8>)
    ensures
        forall|k: int|
            0 <= k < scan_spec(code).tokens.len() ==> token_position_ok(
                code,
                #[trigger] scan_spec(code).tokens[k],
            ),
        forall|k1: int, k2: int|
            0 <= k1 <= k2 < scan_spec(code).tokens.len() ==> scan_spec(code).tokens[k1].offset
                <= scan_spec(code).tokens[k2].offset,
        forall|k1: int, k2: int|
            0 <= k1 <= k2 < scan_spec(code).tokens.len() ==> scan_spec(code).tokens[k1].line
                <= scan_spec(code).tokens[k2].line,
{
    assert(newline_count(code, 0, 0) == 0);
    assert(col_after(code, 0, 0, 0) == 0);
    lemma_positions_from(code, 0, 1, 0);
    assert forall|k1: int, k2: int| 0 <= k1 <= k2 < scan_spec(code).tokens.len() implies scan_spec(
        code,
    ).tokens[k1].line <= scan_spec(code).tokens[k2].line by {
        lemma_line_at_monotone(
            code,
            scan_spec(code).tokens[k1].offset,
            scan_spec(code).tokens[k2].offset,
        );
    }
}

/// Two-character lookahead: `<` followed by `=` is consumed as one
/// less-or-equal token spanning both bytes, never as two tokens.
pub proof fn lemma_two_char_lookahead(code: Seq<u8>, i: int, line: int, col: int)
    requires
        0 <= i,
        i + 1 < code.len(),
        code[i] == 60,
        code[i + 1] == 61,
    ensures
        step_at(code, i, line, col).next == i + 2,
        step_at(code, i, line, col).token == Some(
            token_at(code, Token::LessEqual, i, i + 2, line, col),
        ),
        step_at(code, i, line, col).diag is None,
{
}

/// Keyword matching is whole-lexeme, never prefix: a lexeme is classified
/// as a reserved word exactly when it equals that word byte for byte, and
/// as an identifier exactly when it equals none of them.
pub proof fn lemma_keyword_exactness(s: Seq<u8>)
    ensures
        keyword_kind(s) == Token::And <==> s =~= seq![97u8, 110u8, 100u8],
        keyword_kind(s) == Token::Or <==> s =~= seq![111u8, 114u8],
        keyword_kind(s) == Token::Class <==> s =~= seq![99u8, 108u8, 97u8, 115u8, 115u8],
        keyword_kind(s) == Token::This <==> s =~= seq![116u8, 104u8, 105u8, 115u8],
        keyword_kind(s) == Token::Super <==> s =~= seq![115u8, 117u8, 112u8, 101u8, 114u8],
        keyword_kind(s) == Token::For <==> s =~= seq![102u8, 111u8, 114u8],
        keyword_kind(s) == Token::While <==> s =~= seq![119u8, 104u8, 105u8, 108u8, 101u8],
        keyword_kind(s) == Token::If <==> s =~= seq![105u8, 102u8],
        keyword_kind(s) == Token::Else <==> s =~= seq![101u8, 108u8, 115u8, 101u8],
        keyword_kind(s) == Token::Fun <==> s =~= seq![102u8, 117u8, 110u8],
        keyword_kind(s) == Token::Return <==> s =~= seq![114u8, 101u8, 116u8, 117u8, 114u8, 110u8],
        keyword_kind(s) == Token::Print <==> s =~= seq![112u8, 114u8, 105u8, 110u8, 116u8],
        keyword_kind(s) == Token::Var <==> s =~= seq![118u8, 97u8, 114u8],
        keyword_kind(s) == Token::Nil <==> s =~= seq![110u8, 105u8, 108u8],
        keyword_kind(s) == Token::True <==> s =~= seq![116u8, 114u8, 117u8, 101u8],
        keyword_kind(s) == Token::False <==> s =~= seq![102u8, 97u8, 108u8, 115u8, 101u8],
{
}

/// Comment suppression: a `//` at start-of-lexeme consumes the rest of the
/// line up to but excluding the line break and emits neither a token nor a
/// diagnostic; the line break itself is left for the next step, which
/// advances the line counter.
pub proof fn lemma_comment_produces_nothing(code: Seq<u8>, i: int, line: int, col: int)
    requires
        0 <= i,
        i + 1 < code.len(),
        code[i] == 47,
        code[i + 1] == 47,
    ensures
        step_at(code, i, line, col).token is None,
        step_at(code, i, line, col).diag is None,
        i + 1 < step_at(code, i, line, col).next <= code.len(),
        step_at(code, i, line, col).next == code.len() || code[step_at(code, i, line, col).next]
            == 10,
        forall|p: int| i <= p < step_at(code, i, line, col).next ==> code[p] != 10,
{
    lemma_comment_end(code, i + 1);
    assert(comment_end(code, i + 1) == comment_end(code, i + 2));
}

} // verus!
