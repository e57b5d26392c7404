//! Nyoom: a programming language of three tokens, and its interpreter.
//!
//! The library scans source bytes into tokens (`scan`), parses tokens into
//! instructions (`parse`), resolves imports (`link`) and runs the result with a
//! tree-walking interpreter (`vm`).
pub mod ast;
pub mod link;
pub mod parse;
pub mod scan;
pub mod vm;

use vstd::prelude::*;
use crate::ast::Id;
use crate::scan::Token;
use crate::vm::value::{VarContent, Value};

verus! {

/// A program as the parser hands it over: its instructions in order.
pub type AST = Vec<crate::ast::Inst>;

/// Everything that can go wrong while scanning, parsing, linking or running.
#[derive(Debug)]
pub enum NyoomError {
    ScannerError(&'static str, usize, String),
    CompileError(&'static str, usize),
    LinkerError(&'static str, String),
    BuiltinFnTypeError(&'static str),
    NoSuchElementError(&'static str, i32, usize),
    InvalidArgumentError(&'static str, VarContent),
    RuntimeError(&'static str),
    NoSuchDefinitionError(&'static str, Id),
}

/// The mathematical model of an error.
pub enum ErrorModel {
    ScannerError(&'static str, usize, Seq<char>),
    CompileError(&'static str, usize),
    LinkerError(&'static str, Seq<char>),
    BuiltinFnTypeError(&'static str),
    NoSuchElementError(&'static str, i32, usize),
    InvalidArgumentError(&'static str, Value),
    RuntimeError(&'static str),
    NoSuchDefinitionError(&'static str, Id),
}

impl View for NyoomError {
    type V = ErrorModel;

    open spec fn view(&self) -> ErrorModel {
        match self {
            NyoomError::ScannerError(m, i, s) => ErrorModel::ScannerError(*m, *i, s@),
            NyoomError::CompileError(m, i) => ErrorModel::CompileError(*m, *i),
            NyoomError::LinkerError(m, p) => ErrorModel::LinkerError(*m, p@),
            NyoomError::BuiltinFnTypeError(m) => ErrorModel::BuiltinFnTypeError(*m),
            NyoomError::NoSuchElementError(m, i, n) => ErrorModel::NoSuchElementError(*m, *i, *n),
            NyoomError::InvalidArgumentError(m, v) => ErrorModel::InvalidArgumentError(*m, v@),
            NyoomError::RuntimeError(m) => ErrorModel::RuntimeError(*m),
            NyoomError::NoSuchDefinitionError(m, id) => ErrorModel::NoSuchDefinitionError(*m, *id),
        }
    }
}

/// The error that every token-reading step reports at the end of the tokens.
pub open spec fn no_token_error() -> NyoomError {
    NyoomError::CompileError("Iterator did not find token", 0)
}

/// A cursor over a sequence of tokens.
pub struct TokenIter {
    tokens: Vec<Token>,
    pos: usize,
}

impl View for TokenIter {
    /// The tokens, and the position of the next one to read.
    type V = (Seq<Token>, int);

    closed spec fn view(&self) -> (Seq<Token>, int) {
        (self.tokens@, self.pos as int)
    }
}

impl TokenIter {
    /// A cursor at the first of the tokens.
    pub fn new(tokens: Vec<Token>) -> (r: Self)
        ensures
            r@ == (tokens@, 0int),
    {
        TokenIter { tokens, pos: 0 }
    }

    /// The next token, which is consumed; `None` at the end.
    pub fn next(&mut self) -> (r: Option<Token>)
        ensures
            final(self)@.0 == old(self)@.0,
            0 <= old(self)@.1 < old(self)@.0.len() ==> r == Some(old(self)@.0[old(self)@.1])
                && final(self)@.1 == old(self)@.1 + 1,
            !(0 <= old(self)@.1 < old(self)@.0.len()) ==> r is None && final(self)@.1 == old(self)@.1,
    {
        if self.pos < self.tokens.len() {
            let t = self.tokens[self.pos];
            self.pos = self.pos + 1;
            Some(t)
        } else {
            None
        }
    }

    /// The next token, which is consumed; an error at the end.
    pub fn next_err(&mut self) -> (r: Result<Token, NyoomError>)
        ensures
            final(self)@.0 == old(self)@.0,
            0 <= old(self)@.1 < old(self)@.0.len() ==> r == Ok::<Token, NyoomError>(
                old(self)@.0[old(self)@.1],
            ) && final(self)@.1 == old(self)@.1 + 1,
            !(0 <= old(self)@.1 < old(self)@.0.len()) ==> r == Err::<Token, NyoomError>(
                no_token_error(),
            ) && final(self)@.1 == old(self)@.1,
    {
        match self.next() {
            Some(t) => Ok(t),
            None => Err(NyoomError::CompileError("Iterator did not find token", 0)),
        }
    }

    /// The next token, left in place; `None` at the end.
    pub fn peek(&self) -> (r: Option<&Token>)
        ensures
            0 <= self@.1 < self@.0.len() ==> r == Some(&self@.0[self@.1]),
            !(0 <= self@.1 < self@.0.len()) ==> r is None,
    {
        if self.pos < self.tokens.len() {
            Some(&self.tokens[self.pos])
        } else {
            None
        }
    }

    /// The next token, left in place; an error at the end.
    pub fn peek_err(&self) -> (r: Result<&Token, NyoomError>)
        ensures
            0 <= self@.1 < self@.0.len() ==> r == Ok::<&Token, NyoomError>(&self@.0[self@.1]),
            !(0 <= self@.1 < self@.0.len()) ==> r == Err::<&Token, NyoomError>(no_token_error()),
    {
        match self.peek() {
            Some(t) => Ok(t),
            None => Err(NyoomError::CompileError("Iterator did not find token", 0)),
        }
    }
}

impl From<Vec<Token>> for TokenIter {
    /// A cursor at the first of the tokens.
    fn from(value: Vec<Token>) -> (r: Self)
        ensures
            r@ == (value@, 0int),
    {
        TokenIter { tokens: value, pos: 0 }
    }
}

impl vstd::std_specs::convert::FromSpecImpl<Vec<Token>> for TokenIter {
    open spec fn obeys_from_spec() -> bool {
        true
    }

    closed spec fn from_spec(v: Vec<Token>) -> Self {
        TokenIter { tokens: v, pos: 0 }
    }
}

} // verus!
