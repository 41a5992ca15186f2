use vstd::prelude::*;
use crate::grammar::{
    walk, is_alnum, is_alpha, is_digit, is_newline, is_space, lex_from, number_end, prepend,
    quote_at, scan_token, skip_spaces, word_end, word_kind, ScanPos,
};
use crate::token::{tokens_view, Token, TokenKind, TokenView};

verus! {

/// A single-use scanner over an owned character buffer.
pub struct Lexer {
    source: Vec<char>,
    current: usize,
    line: usize,
    column: usize,
}

/// The mathematical value of a `Lexer`: its source and where it stands in it.
pub struct LexerView {
    pub source: Seq<char>,
    pub pos: ScanPos,
}

impl View for Lexer {
    type V = LexerView;

    closed spec fn view(&self) -> LexerView {
        LexerView {
            source: self.source@,
            pos: ScanPos {
                at: self.current as int,
                line: self.line as int,
                column: self.column as int,
            },
        }
    }
}

fn newline_char(c: char) -> (r: bool)
    ensures
        r == is_newline(c),
{
    c == '\n' || c == '\r'
}

fn space_char(c: char) -> (r: bool)
    ensures
        r == is_space(c),
{
    c == ' ' || c == '\t' || newline_char(c)
}

fn digit_char(c: char) -> (r: bool)
    ensures
        r == is_digit(c),
{
    '0' <= c && c <= '9'
}

fn alpha_char(c: char) -> (r: bool)
    ensures
        r == is_alpha(c),
{
    ('a' <= c && c <= 'z') || ('A' <= c && c <= 'Z')
}

fn alnum_char(c: char) -> (r: bool)
    ensures
        r == is_alnum(c),
{
    alpha_char(c) || digit_char(c)
}

impl Lexer {
    /// The cursor lies in the buffer or at most one step past its end, and the
    /// line and column are at most one more than the number of steps taken, so
    /// that none of them can overflow.
    pub open spec fn well_formed(&self) -> bool {
        let v = self@;
        &&& v.source.len() < usize::MAX - 1
        &&& 0 <= v.pos.at <= v.source.len() + 1
        &&& 1 <= v.pos.line <= v.pos.at + 1
        &&& 1 <= v.pos.column <= v.pos.at + 1
    }

    /// A lexer at the start of `source`: line 1, column 1.
    pub fn new(source: Vec<char>) -> (r: Lexer)
        requires
            source@.len() < usize::MAX - 1,
        ensures
            r.well_formed(),
            r@.source == source@,
            r@.pos == crate::grammar::start(),
    {
        Lexer { source, current: 0, line: 1, column: 1 }
    }

    fn get_current(&self) -> (r: Option<char>)
        requires
            self.well_formed(),
        ensures
            r == (if self@.pos.at < self@.source.len() {
                Some(self@.source[self@.pos.at])
            } else {
                None::<char>
            }),
    {
        if self.is_past_end() {
            return None;
        }
        Some(self.source[self.current])
    }

    fn is_past_end(&self) -> (r: bool)
        ensures
            r == (self@.pos.at >= self@.source.len()),
    {
        self.current >= self.source.len()
    }

    /// Skips spaces, tabs and newlines; each newline moves to column 1 of the next line.
    fn skip_whitespace(&mut self)
        requires
            old(self).well_formed(),
        ensures
            final(self).well_formed(),
            final(self)@.source == old(self)@.source,
            final(self)@.pos == skip_spaces(old(self)@.source, old(self)@.pos),
            final(self)@.pos.at >= old(self)@.pos.at,
            final(self)@.pos.line >= old(self)@.pos.line,
            old(self)@.pos.at <= old(self)@.source.len() ==> final(self)@.pos.at
                <= final(self)@.source.len(),
    {
        let ghost s = self@.source;
        let ghost p0 = self@.pos;
        while !self.is_past_end() && space_char(self.source[self.current])
            invariant
                self.well_formed(),
                self@.source == s,
                self@.pos.at >= p0.at,
                self@.pos.line >= p0.line,
                p0.at <= s.len() ==> self@.pos.at <= s.len(),
                skip_spaces(s, self@.pos) == skip_spaces(s, p0),
            decreases s.len() - self@.pos.at,
        {
            if newline_char(self.source[self.current]) {
                self.column = 1;
                self.current += 1;
                self.line += 1;
            } else {
                self.current += 1;
                self.column += 1;
            }
        }
    }

    fn new_token(&self, kind: TokenKind) -> (r: Token)
        ensures
            r@ == (TokenView { kind: kind@, line: self@.pos.line, column: self@.pos.column }),
    {
        Token { kind, line: self.line, column: self.column }
    }

    /// Moves one character on, within the line, and returns the character reached.
    fn advance(&mut self) -> (r: Option<char>)
        requires
            old(self).well_formed(),
            old(self)@.pos.at <= old(self)@.source.len(),
        ensures
            final(self).well_formed(),
            final(self)@.source == old(self)@.source,
            final(self)@.pos == (ScanPos {
                at: old(self)@.pos.at + 1,
                line: old(self)@.pos.line,
                column: old(self)@.pos.column + 1,
            }),
            r == (if final(self)@.pos.at < final(self)@.source.len() {
                Some(final(self)@.source[final(self)@.pos.at])
            } else {
                None::<char>
            }),
    {
        self.current += 1;
        self.column += 1;
        self.get_current()
    }
    /// Scans a string literal whose opening quote is the current character.
    fn scan_string(&mut self) -> (r: Result<Token, String>)
        requires
            old(self).well_formed(),
            old(self)@.pos.at < old(self)@.source.len(),
            old(self)@.source[old(self)@.pos.at] == '"',
        ensures
            final(self).well_formed(),
            final(self)@.source == old(self)@.source,
            final(self)@.pos.at > old(self)@.pos.at,
            final(self)@.pos.at <= final(self)@.source.len(),
            final(self)@.pos.line >= old(self)@.pos.line,
            match scan_token(old(self)@.source, old(self)@.pos) {
                Ok((t, p)) => r matches Ok(tok) && tok@ == t && final(self)@.pos == p,
                Err(e) => r matches Err(m) && m@ == e,
            },
    {
        let ghost s = self@.source;
        let ghost p0 = self@.pos;
        assert(walk(s, p0, p0.at) == p0);
        let mut lexeme = String::new();
        let mut next = self.advance();
        while next.is_some() && next.unwrap() != '"'
            invariant
                self.well_formed(),
                self@.source == s,
                0 <= p0.at < self@.pos.at <= s.len(),
                self@.pos == walk(s, p0, self@.pos.at),
                self@.pos.line >= p0.line,
                lexeme@ == s.subrange(p0.at + 1, self@.pos.at),
                quote_at(s, self@.pos.at) == quote_at(s, p0.at + 1),
                next == (if self@.pos.at < s.len() {
                    Some(s[self@.pos.at])
                } else {
                    None::<char>
                }),
            decreases s.len() - self@.pos.at,
        {
            let ghost i = self@.pos.at;
            let c = next.unwrap();
            lexeme.push(c);
            assert(s.subrange(p0.at + 1, i + 1) =~= s.subrange(p0.at + 1, i).push(s[i]));
            next = self.advance();
            if newline_char(c) {
                self.line += 1;
                self.column = 1;
            }
        }
        if next.is_none() {
            return Err(String::from_str("Unterminated string"));
        }
        self.advance();
        Ok(self.new_token(TokenKind::String(lexeme)))
    }

    /// Scans a numeral whose first digit, `first`, is the current character.
    fn scan_number(&mut self, first: char) -> (r: Result<Token, String>)
        requires
            old(self).well_formed(),
            old(self)@.pos.at < old(self)@.source.len(),
            old(self)@.source[old(self)@.pos.at] == first,
            is_digit(first),
        ensures
            final(self).well_formed(),
            final(self)@.source == old(self)@.source,
            final(self)@.pos.at > old(self)@.pos.at,
            final(self)@.pos.at <= final(self)@.source.len(),
            final(self)@.pos.line >= old(self)@.pos.line,
            match scan_token(old(self)@.source, old(self)@.pos) {
                Ok((t, p)) => r matches Ok(tok) && tok@ == t && final(self)@.pos == p,
                Err(e) => r matches Err(m) && m@ == e,
            },
    {
        let ghost s = self@.source;
        let ghost p0 = self@.pos;
        assert(walk(s, p0, p0.at) == p0);
        let mut is_float = false;
        let mut lexeme = String::new();
        lexeme.push(first);
        assert(lexeme@ =~= s.subrange(p0.at, p0.at + 1));
        let mut next = self.advance();
        while next.is_some() && (next.unwrap() == '.' || digit_char(next.unwrap()))
            invariant
                self.well_formed(),
                self@.source == s,
                s == old(self)@.source,
                p0 == old(self)@.pos,
                is_digit(s[p0.at]),
                0 <= p0.at < self@.pos.at <= s.len(),
                self@.pos == walk(s, p0, self@.pos.at),
                self@.pos.line >= p0.line,
                lexeme@ == s.subrange(p0.at, self@.pos.at),
                number_end(s, self@.pos.at, is_float) == number_end(s, p0.at + 1, false),
                next == (if self@.pos.at < s.len() {
                    Some(s[self@.pos.at])
                } else {
                    None::<char>
                }),
            decreases s.len() - self@.pos.at,
        {
            let ghost i = self@.pos.at;
            let c = next.unwrap();
            if c == '.' {
                if is_float {
                    return Err(String::from_str("Invalid floating-point number signature"));
                }
                is_float = true;
            }
            lexeme.push(c);
            assert(s.subrange(p0.at, i + 1) =~= s.subrange(p0.at, i).push(s[i]));
            next = self.advance();
        }
        Ok(self.new_token(TokenKind::Number(lexeme)))
    }

    /// Scans a word whose first letter, `first`, is the current character; the
    /// reserved words become their keywords.
    fn scan_word(&mut self, first: char) -> (r: Result<Token, String>)
        requires
            old(self).well_formed(),
            old(self)@.pos.at < old(self)@.source.len(),
            old(self)@.source[old(self)@.pos.at] == first,
            is_alpha(first),
        ensures
            final(self).well_formed(),
            final(self)@.source == old(self)@.source,
            final(self)@.pos.at > old(self)@.pos.at,
            final(self)@.pos.at <= final(self)@.source.len(),
            final(self)@.pos.line >= old(self)@.pos.line,
            match scan_token(old(self)@.source, old(self)@.pos) {
                Ok((t, p)) => r matches Ok(tok) && tok@ == t && final(self)@.pos == p,
                Err(e) => r matches Err(m) && m@ == e,
            },
    {
        let ghost s = self@.source;
        let ghost p0 = self@.pos;
        assert(walk(s, p0, p0.at) == p0);
        let mut lexeme = String::new();
        lexeme.push(first);
        assert(lexeme@ =~= s.subrange(p0.at, p0.at + 1));
        let mut next = self.advance();
        while next.is_some() && alnum_char(next.unwrap())
            invariant
                self.well_formed(),
                self@.source == s,
                0 <= p0.at < self@.pos.at <= s.len(),
                self@.pos == walk(s, p0, self@.pos.at),
                self@.pos.line >= p0.line,
                lexeme@ == s.subrange(p0.at, self@.pos.at),
                word_end(s, self@.pos.at) == word_end(s, p0.at + 1),
                next == (if self@.pos.at < s.len() {
                    Some(s[self@.pos.at])
                } else {
                    None::<char>
                }),
            decreases s.len() - self@.pos.at,
        {
            let ghost i = self@.pos.at;
            lexeme.push(next.unwrap());
            assert(s.subrange(p0.at, i + 1) =~= s.subrange(p0.at, i).push(s[i]));
            next = self.advance();
        }
        Ok(self.new_token(keyword_or_identifier(lexeme)))
    }
    /// Skips whitespace and scans one token: `None` where the input is used up.
    fn chomp(&mut self) -> (r: Result<Option<Token>, String>)
        requires
            old(self).well_formed(),
        ensures
            final(self).well_formed(),
            final(self)@.source == old(self)@.source,
            final(self)@.pos.at >= old(self)@.pos.at,
            final(self)@.pos.line >= old(self)@.pos.line,
            old(self)@.pos.at <= old(self)@.source.len() ==> final(self)@.pos.at
                <= final(self)@.source.len(),
            ({
                let s = old(self)@.source;
                let q = skip_spaces(s, old(self)@.pos);
                if q.at >= s.len() {
                    r == Ok::<Option<Token>, String>(None) && final(self)@.pos == q
                } else {
                    (r is Ok ==> final(self)@.pos.at > q.at) && q.at >= old(self)@.pos.at
                        && match scan_token(s, q) {
                        Ok((t, p)) => r matches Ok(Some(tok)) && tok@ == t && final(self)@.pos == p,
                        Err(e) => r matches Err(m) && m@ == e,
                    }
                }
            }),
    {
        self.skip_whitespace();
        if self.is_past_end() {
            return Ok(None);
        }
        let ghost s = self@.source;
        let ghost q = self@.pos;
        assert(walk(s, q, q.at) == q);
        let c = self.source[self.current];
        match c {
            '(' => {
                self.advance();
                Ok(Some(self.new_token(TokenKind::LeftParen)))
            },
            ')' => {
                self.advance();
                Ok(Some(self.new_token(TokenKind::RightParen)))
            },
            '=' | '+' | '-' | '*' | '/' => {
                self.advance();
                let mut op = String::new();
                op.push(c);
                assert(op@ =~= seq![c]);
                Ok(Some(self.new_token(TokenKind::Identifier(op))))
            },
            '"' => match self.scan_string() {
                Ok(t) => Ok(Some(t)),
                Err(e) => Err(e),
            },
            _ => {
                let scanned = if digit_char(c) {
                    self.scan_number(c)
                } else if alpha_char(c) {
                    self.scan_word(c)
                } else {
                    let mut m = String::from_str("Unrecognized character ");
                    m.push(c);
                    Err(m)
                };
                match scanned {
                    Ok(t) => Ok(Some(t)),
                    Err(e) => Err(e),
                }
            },
        }
    }

    /// Scans the whole rest of the input: its tokens closed by `EOF`, or the
    /// message of the first error, with no tokens.
    pub fn run(&mut self) -> (r: Result<Vec<Token>, String>)
        requires
            old(self).well_formed(),
        ensures
            final(self).well_formed(),
            final(self)@.source == old(self)@.source,
            match lex_from(old(self)@.source, old(self)@.pos) {
                Ok(ts) => r matches Ok(v) && tokens_view(v@) == ts,
                Err(e) => r matches Err(m) && m@ == e,
            },
    {
        let ghost s = self@.source;
        let ghost p0 = self@.pos;
        let mut tokens: Vec<Token> = Vec::new();
        while !self.is_past_end()
            invariant
                self.well_formed(),
                self@.source == s,
                s == old(self)@.source,
                p0 == old(self)@.pos,
                prepend(tokens_view(tokens@), lex_from(s, self@.pos)) == lex_from(s, p0),
            decreases s.len() - self@.pos.at,
        {
            let ghost p = self@.pos;
            let ghost before = tokens@;
            match self.chomp() {
                Err(e) => {
                    return Err(e);
                },
                Ok(Some(t)) => {
                    tokens.push(t);
                    assert(tokens_view(tokens@) =~= tokens_view(before) + seq![t@]);
                    proof {
                        match lex_from(s, self@.pos) {
                            Ok(rest) => {
                                assert(tokens_view(before) + seq![t@] + rest =~= tokens_view(before)
                                    + (seq![t@] + rest));
                            },
                            Err(_) => {},
                        }
                    }
                },
                Ok(None) => {},
            }
        }
        tokens.push(self.new_token(TokenKind::EOF));
        assert(tokens_view(tokens@) =~= tokens_view(tokens@.drop_last()) + seq![tokens@.last()@]);
        Ok(tokens)
    }
}

/// The keyword that `word` spells, or an identifier holding it.
fn keyword_or_identifier(word: String) -> (r: TokenKind)
    ensures
        r@ == word_kind(word@),
{
    if word == String::from_str("true") {
        TokenKind::True
    } else if word == String::from_str("false") {
        TokenKind::False
    } else {
        TokenKind::Identifier(word)
    }
}

} // verus!
