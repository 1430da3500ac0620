//! The failures that evaluation reports.

use crate::parser::ParserError;
use crate::tokeniser::{Token, TokeniserError};
use vstd::prelude::*;

verus! {

/// A runtime failure: what went wrong and, where known, the token of the
/// form that failed.
#[derive(Debug)]
pub struct Error {
    pub message: String,
    pub token: Option<Token>,
}

impl Error {
    pub fn new(message: String, token: Option<Token>) -> (r: Self)
        ensures
            r.message == message,
            r.token == token,
    {
        Self { message, token }
    }

    pub fn set_token(&mut self, token: Token)
        ensures
            final(self).message == old(self).message,
            final(self).token == Some(token),
    {
        self.token = Some(token)
    }

    pub fn get_message(&self) -> (r: &String)
        ensures
            r == self.message,
    {
        &self.message
    }
}

/// The failure of a whole evaluation: while lexing, building the tree, or
/// running it.
#[derive(Debug)]
pub enum EvalError {
    TokeniserError(TokeniserError),
    ParserError(ParserError),
    RuntimeError(Error),
}

} // verus!
