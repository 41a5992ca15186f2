use vstd::prelude::*;
use crate::grammar::{
    is_newline, is_space, lex, lex_from, number_end, quote_at, scan_token, skip_spaces, start,
    step_char, walk, word_end, ScanPos,
};
use crate::token::{Lexeme, TokenView};

verus! {

/// `(line1, column1)` does not come after `(line2, column2)`.
pub open spec fn pos_le(line1: int, column1: int, line2: int, column2: int) -> bool {
    line1 < line2 || (line1 == line2 && column1 <= column2)
}

pub open spec fn token_le(a: TokenView, b: TokenView) -> bool {
    pos_le(a.line, a.column, b.line, b.column)
}

/// Skipping whitespace over a source made of whitespace alone reaches its end.
proof fn lemma_skip_blank(s: Seq<char>, p: ScanPos)
    requires
        forall|i: int| 0 <= i < s.len() ==> is_space(#[trigger] s[i]),
        0 <= p.at <= s.len(),
    ensures
        skip_spaces(s, p).at == s.len(),
    decreases s.len() - p.at,
{
    if p.at < s.len() {
        lemma_skip_blank(s, step_char(p, s[p.at]));
    }
}

/// A source made only of spaces, tabs and newlines, the empty one included,
/// scans to exactly one token, `EOF`.
pub proof fn lemma_blank_source_is_eof(s: Seq<char>)
    requires
        forall|i: int| 0 <= i < s.len() ==> is_space(#[trigger] s[i]),
    ensures
        lex(s) matches Ok(ts) && ts.len() == 1 && ts[0].kind == Lexeme::Eof,
{
    lemma_skip_blank(s, start());
}

/// Scanning depends on the source alone: two lexers made fresh from equal buffers
/// produce the same result.
pub proof fn lemma_scan_is_pure(a: Seq<char>, b: Seq<char>)
    requires
        a == b,
    ensures
        lex(a) == lex(b),
{
}

/// A newline skipped between tokens moves to column 1 of the next line.
pub proof fn lemma_newline_starts_line(s: Seq<char>, p: ScanPos)
    requires
        0 <= p.at < s.len(),
        is_newline(s[p.at]),
    ensures
        skip_spaces(s, p) == skip_spaces(
            s,
            ScanPos { at: p.at + 1, line: p.line + 1, column: 1 },
        ),
{
}

/// Skipping whitespace never moves back in the source or in line/column order.
proof fn lemma_skip_moves_on(s: Seq<char>, p: ScanPos)
    ensures
        skip_spaces(s, p).at >= p.at,
        pos_le(p.line, p.column, skip_spaces(s, p).line, skip_spaces(s, p).column),
    decreases s.len() - p.at,
{
    if 0 <= p.at < s.len() && is_space(s[p.at]) {
        lemma_skip_moves_on(s, step_char(p, s[p.at]));
    }
}

proof fn lemma_word_end_at_least(s: Seq<char>, j: int)
    ensures
        word_end(s, j) >= j,
        j <= s.len() ==> word_end(s, j) <= s.len(),
    decreases s.len() - j,
{
    if 0 <= j < s.len() {
        lemma_word_end_at_least(s, j + 1);
    }
}

proof fn lemma_number_end_at_least(s: Seq<char>, j: int, dot: bool)
    ensures
        number_end(s, j, dot) matches Some(e) ==> e >= j && (j <= s.len() ==> e <= s.len()),
    decreases s.len() - j,
{
    if 0 <= j < s.len() {
        lemma_number_end_at_least(s, j + 1, true);
        lemma_number_end_at_least(s, j + 1, dot);
    }
}

proof fn lemma_quote_at_at_least(s: Seq<char>, j: int)
    ensures
        quote_at(s, j) matches Some(q) ==> q >= j && q < s.len(),
    decreases s.len() - j,
{
    if 0 <= j < s.len() {
        lemma_quote_at_at_least(s, j + 1);
    }
}

/// Reading characters moves to the index read up to, never back in line/column order.
proof fn lemma_walk_moves_on(s: Seq<char>, p: ScanPos, end: int)
    requires
        end >= p.at,
    ensures
        walk(s, p, end).at == end,
        pos_le(p.line, p.column, walk(s, p, end).line, walk(s, p, end).column),
    decreases end - p.at,
{
    if end > p.at {
        lemma_walk_moves_on(s, p, end - 1);
    }
}

/// A scanned token is recorded at the position where scanning goes on, which
/// does not come before the position where the token was scanned.
proof fn lemma_scan_token_position(s: Seq<char>, p: ScanPos)
    requires
        0 <= p.at < s.len(),
    ensures
        scan_token(s, p) matches Ok((t, r)) ==> t.line == r.line && t.column == r.column
            && pos_le(p.line, p.column, r.line, r.column),
{
    lemma_word_end_at_least(s, p.at + 1);
    lemma_number_end_at_least(s, p.at + 1, false);
    lemma_quote_at_at_least(s, p.at + 1);
    let c = s[p.at];
    if c == '"' {
        if let Some(q) = quote_at(s, p.at + 1) {
            lemma_walk_moves_on(s, p, q + 1);
        }
    } else if crate::grammar::is_digit(c) {
        if let Some(e) = number_end(s, p.at + 1, false) {
            lemma_walk_moves_on(s, p, e);
        }
    } else if crate::grammar::is_alpha(c) {
        lemma_walk_moves_on(s, p, word_end(s, p.at + 1));
    } else {
        lemma_walk_moves_on(s, p, p.at + 1);
    }
}

/// Every token of a successful scan from `p` comes no earlier than `p`, and the
/// tokens come in non-decreasing line/column order.
pub proof fn lemma_positions_ordered(s: Seq<char>, p: ScanPos)
    ensures
        lex_from(s, p) matches Ok(ts) ==> {
            &&& forall|i: int| 0 <= i < ts.len() ==> pos_le(p.line, p.column, #[trigger] ts[i].line, ts[i].column)
            &&& forall|i: int, j: int| 0 <= i <= j < ts.len() ==> token_le(#[trigger] ts[i], #[trigger] ts[j])
        },
    decreases s.len() - p.at,
{
    let q = skip_spaces(s, p);
    lemma_skip_moves_on(s, p);
    if 0 <= q.at < s.len() {
        lemma_scan_token_position(s, q);
        if let Ok((t, r)) = scan_token(s, q) {
            if p.at < r.at <= s.len() {
                lemma_positions_ordered(s, r);
                if let Ok(rest) = lex_from(s, r) {
                    let ts = seq![t] + rest;
                    assert forall|i: int| 0 <= i < ts.len() implies pos_le(
                        p.line,
                        p.column,
                        #[trigger] ts[i].line,
                        ts[i].column,
                    ) by {
                        if i > 0 {
                            assert(ts[i] == rest[i - 1]);
                        }
                    }
                    assert forall|i: int, j: int| 0 <= i <= j < ts.len() implies token_le(
                        #[trigger] ts[i],
                        #[trigger] ts[j],
                    ) by {
                        if i > 0 {
                            assert(ts[i] == rest[i - 1]);
                        }
                        if j > 0 {
                            assert(ts[j] == rest[j - 1]);
                        }
                    }
                }
            }
        }
    }
}

/// The tokens of a successful scan of a whole source come in non-decreasing
/// line/column order.
pub proof fn lemma_token_positions_nondecreasing(s: Seq<char>)
    ensures
        lex(s) matches Ok(ts) ==> forall|i: int, j: int|
            0 <= i <= j < ts.len() ==> token_le(#[trigger] ts[i], #[trigger] ts[j]),
{
    lemma_positions_ordered(s, start());
}

/// The number of newline characters among the first `n` characters of `s`.
pub open spec fn newlines_before(s: Seq<char>, n: int) -> int
    decreases n,
{
    if n <= 0 {
        0
    } else {
        newlines_before(s, n - 1) + if is_newline(s[n - 1]) {
            1int
        } else {
            0int
        }
    }
}

/// The index at which the line holding index `n` of `s` starts: just after the
/// last newline before `n`, or 0.
pub open spec fn line_start(s: Seq<char>, n: int) -> int
    decreases n,
{
    if n <= 0 {
        0
    } else if is_newline(s[n - 1]) {
        n
    } else {
        line_start(s, n - 1)
    }
}

/// `p` holds the line and column counted from the start of `s` up to index `p.at`.
pub open spec fn counted(s: Seq<char>, p: ScanPos) -> bool {
    &&& 0 <= p.at <= s.len()
    &&& p.line == 1 + newlines_before(s, p.at)
    &&& p.column == 1 + p.at - line_start(s, p.at)
}

/// The token's line and column are those counted up to some index of `s`.
pub open spec fn counted_token(s: Seq<char>, t: TokenView) -> bool {
    exists|e: int| #[trigger] counted(s, ScanPos { at: e, line: t.line, column: t.column })
}

proof fn lemma_skip_counted(s: Seq<char>, p: ScanPos)
    requires
        counted(s, p),
    ensures
        counted(s, skip_spaces(s, p)),
    decreases s.len() - p.at,
{
    if p.at < s.len() && is_space(s[p.at]) {
        lemma_skip_counted(s, step_char(p, s[p.at]));
    }
}

proof fn lemma_walk_counted(s: Seq<char>, p: ScanPos, end: int)
    requires
        counted(s, p),
        p.at <= end <= s.len(),
    ensures
        counted(s, walk(s, p, end)),
    decreases end - p.at,
{
    if end > p.at {
        lemma_walk_counted(s, p, end - 1);
        lemma_walk_moves_on(s, p, end - 1);
    }
}

proof fn lemma_scan_counted(s: Seq<char>, p: ScanPos)
    requires
        counted(s, p),
        p.at < s.len(),
    ensures
        scan_token(s, p) matches Ok((t, r)) ==> counted(s, r) && t.line == r.line
            && t.column == r.column,
{
    lemma_word_end_at_least(s, p.at + 1);
    lemma_number_end_at_least(s, p.at + 1, false);
    lemma_quote_at_at_least(s, p.at + 1);
    let c = s[p.at];
    if c == '"' {
        if let Some(q) = quote_at(s, p.at + 1) {
            lemma_walk_counted(s, p, q + 1);
        }
    } else if crate::grammar::is_digit(c) {
        if let Some(e) = number_end(s, p.at + 1, false) {
            lemma_walk_counted(s, p, e);
        }
    } else if crate::grammar::is_alpha(c) {
        lemma_walk_counted(s, p, word_end(s, p.at + 1));
    } else {
        lemma_walk_counted(s, p, p.at + 1);
    }
}

proof fn lemma_lex_counted(s: Seq<char>, p: ScanPos)
    requires
        counted(s, p),
    ensures
        lex_from(s, p) matches Ok(ts) ==> forall|k: int|
            0 <= k < ts.len() ==> counted_token(s, #[trigger] ts[k]),
    decreases s.len() - p.at,
{
    let q = skip_spaces(s, p);
    lemma_skip_counted(s, p);
    if 0 <= q.at < s.len() {
        lemma_scan_counted(s, q);
        if let Ok((t, r)) = scan_token(s, q) {
            if p.at < r.at <= s.len() {
                lemma_lex_counted(s, r);
                if let Ok(rest) = lex_from(s, r) {
                    let ts = seq![t] + rest;
                    assert(counted(s, ScanPos { at: r.at, line: t.line, column: t.column }));
                    assert forall|k: int| 0 <= k < ts.len() implies counted_token(
                        s,
                        #[trigger] ts[k],
                    ) by {
                        if k > 0 {
                            assert(ts[k] == rest[k - 1]);
                        }
                    }
                }
            }
        }
    } else {
        let eof = TokenView { kind: Lexeme::Eof, line: q.line, column: q.column };
        assert(counted(s, ScanPos { at: q.at, line: eof.line, column: eof.column }));
        assert(counted_token(s, eof));
        assert(lex_from(s, p) == Ok::<Seq<TokenView>, Seq<char>>(seq![eof]));
    }
}

/// Lines and columns are counted from the start of the source: every token of a
/// successful scan stands on line 1 plus the number of newlines before some index
/// `e` of the source, at column 1 plus the number of characters between the last
/// of those newlines (or the start) and `e`.
pub proof fn lemma_positions_count_newlines(s: Seq<char>)
    ensures
        lex(s) matches Ok(ts) ==> forall|k: int|
            0 <= k < ts.len() ==> counted_token(s, #[trigger] ts[k]),
{
    lemma_lex_counted(s, start());
}

} // verus!
