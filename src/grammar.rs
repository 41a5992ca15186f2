use vstd::prelude::*;
use crate::token::{Lexeme, TokenView};

verus! {

/// Where the scanner stands: an index into the source and the line/column pair there.
pub struct ScanPos {
    pub at: int,
    pub line: int,
    pub column: int,
}

pub open spec fn is_newline(c: char) -> bool {
    c == '\n' || c == '\r'
}

/// Characters that only separate tokens.
pub open spec fn is_space(c: char) -> bool {
    c == ' ' || c == '\t' || is_newline(c)
}

pub open spec fn is_digit(c: char) -> bool {
    '0' <= c && c <= '9'
}

pub open spec fn is_alpha(c: char) -> bool {
    ('a' <= c && c <= 'z') || ('A' <= c && c <= 'Z')
}

pub open spec fn is_alnum(c: char) -> bool {
    is_alpha(c) || is_digit(c)
}

/// The single characters that stand for an operator, scanned as an identifier.
pub open spec fn is_operator(c: char) -> bool {
    c == '=' || c == '+' || c == '-' || c == '*' || c == '/'
}

/// The position after reading the character `c` at `p`: a newline starts a new
/// line, any other character moves one column on.
pub open spec fn step_char(p: ScanPos, c: char) -> ScanPos {
    if is_newline(c) {
        ScanPos { at: p.at + 1, line: p.line + 1, column: 1 }
    } else {
        ScanPos { at: p.at + 1, line: p.line, column: p.column + 1 }
    }
}

/// The position reached by skipping the whitespace that starts at `p`.
pub open spec fn skip_spaces(s: Seq<char>, p: ScanPos) -> ScanPos
    decreases s.len() - p.at,
{
    if 0 <= p.at < s.len() && is_space(s[p.at]) {
        skip_spaces(s, step_char(p, s[p.at]))
    } else {
        p
    }
}

/// The end of the run of alphanumeric characters that starts at `j`.
pub open spec fn word_end(s: Seq<char>, j: int) -> int
    decreases s.len() - j,
{
    if 0 <= j < s.len() && is_alnum(s[j]) {
        word_end(s, j + 1)
    } else {
        j
    }
}

/// The end of the numeral whose rest starts at `j` (`dot`: a `.` was already seen),
/// or `None` where a second `.` comes first.
pub open spec fn number_end(s: Seq<char>, j: int, dot: bool) -> Option<int>
    decreases s.len() - j,
{
    if 0 <= j < s.len() && s[j] == '.' {
        if dot {
            None
        } else {
            number_end(s, j + 1, true)
        }
    } else if 0 <= j < s.len() && is_digit(s[j]) {
        number_end(s, j + 1, dot)
    } else {
        Some(j)
    }
}

/// The index of the first `"` at or after `j`, if there is one.
pub open spec fn quote_at(s: Seq<char>, j: int) -> Option<int>
    decreases s.len() - j,
{
    if 0 <= j < s.len() {
        if s[j] == '"' {
            Some(j)
        } else {
            quote_at(s, j + 1)
        }
    } else {
        None
    }
}

pub open spec fn unterminated_message() -> Seq<char> {
    "Unterminated string"@
}

pub open spec fn bad_float_message() -> Seq<char> {
    "Invalid floating-point number signature"@
}

pub open spec fn unrecognized_message(c: char) -> Seq<char> {
    "Unrecognized character "@.push(c)
}

/// The kind of a scanned word: the reserved words, else an identifier.
pub open spec fn word_kind(w: Seq<char>) -> Lexeme {
    if w == "true"@ {
        Lexeme::True
    } else if w == "false"@ {
        Lexeme::False
    } else {
        Lexeme::Identifier(w)
    }
}

/// The position reached from `p` by reading the characters of `s` up to `end`.
pub open spec fn walk(s: Seq<char>, p: ScanPos, end: int) -> ScanPos
    decreases end - p.at,
{
    if end <= p.at {
        p
    } else {
        step_char(walk(s, p, end - 1), s[end - 1])
    }
}

/// A token that ends at `end`, scanned from `p`; it is recorded with the position
/// reached after its last character.
pub open spec fn finish(kind: Lexeme, s: Seq<char>, p: ScanPos, end: int) -> (TokenView, ScanPos) {
    let q = walk(s, p, end);
    (TokenView { kind, line: q.line, column: q.column }, q)
}

/// One token scanned at `p`, which holds a character that is not whitespace, and the
/// position after it; or the message of the error that stops the scan there.
pub open spec fn scan_token(s: Seq<char>, p: ScanPos) -> Result<(TokenView, ScanPos), Seq<char>> {
    let c = s[p.at];
    if c == '(' {
        Ok(finish(Lexeme::LeftParen, s, p, p.at + 1))
    } else if c == ')' {
        Ok(finish(Lexeme::RightParen, s, p, p.at + 1))
    } else if is_operator(c) {
        Ok(finish(Lexeme::Identifier(seq![c]), s, p, p.at + 1))
    } else if c == '"' {
        match quote_at(s, p.at + 1) {
            Some(q) => Ok(finish(Lexeme::Text(s.subrange(p.at + 1, q)), s, p, q + 1)),
            None => Err(unterminated_message()),
        }
    } else if is_digit(c) {
        match number_end(s, p.at + 1, false) {
            Some(e) => Ok(finish(Lexeme::Number(s.subrange(p.at, e)), s, p, e)),
            None => Err(bad_float_message()),
        }
    } else if is_alpha(c) {
        let e = word_end(s, p.at + 1);
        Ok(finish(word_kind(s.subrange(p.at, e)), s, p, e))
    } else {
        Err(unrecognized_message(c))
    }
}

/// `ts` in front of the tokens of `r`, or the error of `r`.
pub open spec fn prepend(ts: Seq<TokenView>, r: Result<Seq<TokenView>, Seq<char>>) -> Result<
    Seq<TokenView>,
    Seq<char>,
> {
    match r {
        Ok(rest) => Ok(ts + rest),
        Err(e) => Err(e),
    }
}

/// The tokens of `s` from `p` on, closed by `EOF` at the position where the scan
/// stopped; or the message of the first error.
pub open spec fn lex_from(s: Seq<char>, p: ScanPos) -> Result<Seq<TokenView>, Seq<char>>
    decreases s.len() - p.at,
{
    let q = skip_spaces(s, p);
    if !(0 <= q.at < s.len()) {
        Ok(seq![TokenView { kind: Lexeme::Eof, line: q.line, column: q.column }])
    } else {
        match scan_token(s, q) {
            Ok((t, r)) => if p.at < r.at <= s.len() {
                prepend(seq![t], lex_from(s, r))
            } else {
                Err(Seq::empty())
            },
            Err(e) => Err(e),
        }
    }
}

/// Where every scan starts: the first character, on line 1, column 1.
pub open spec fn start() -> ScanPos {
    ScanPos { at: 0, line: 1, column: 1 }
}

/// The tokens of the whole source `s`, or the message of the first error.
pub open spec fn lex(s: Seq<char>) -> Result<Seq<TokenView>, Seq<char>> {
    lex_from(s, start())
}

} // verus!
