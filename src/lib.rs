pub mod grammar;
pub mod laws;
pub mod lexer;
pub mod token;

use vstd::prelude::*;
use crate::grammar::lex;
use crate::lexer::Lexer;
use crate::token::{tokens_view, Token};

verus! {

/// A failure of the front end, by the phase that reported it.
#[derive(Debug)]
pub enum Error {
    LexingError(String),
    ParsingError(String),
}

/// Runs the front end over `source`: its tokens, or the lexing error that stopped it.
pub fn compile(source: Vec<char>) -> (r: Result<Vec<Token>, Error>)
    requires
        source@.len() < usize::MAX - 1,
    ensures
        match lex(source@) {
            Ok(ts) => r matches Ok(v) && tokens_view(v@) == ts,
            Err(e) => r matches Err(Error::LexingError(m)) && m@ == e,
        },
{
    let mut lexer = Lexer::new(source);
    match lexer.run() {
        Ok(tokens) => Ok(tokens),
        Err(e) => Err(Error::LexingError(e)),
    }
}

} // verus!
