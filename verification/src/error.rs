use vstd::prelude::*;
use vstd::string::StringExecFns;
use crate::token::{Position, Token, TokenView};

verus! {

/// What the parser wanted at the place where it gave up.
#[derive(Debug, Clone, Copy, PartialEq, Eq, Structural)]
pub enum Expected {
    /// A number, an identifier or an opening parenthesis.
    Expression,
    /// This very symbol.
    Symbol(char),
    /// The keyword `return`.
    Return,
}

/// A syntax error: what was expected, and the token found in its place.
/// The offending token carries its own position; the end of input has none.
#[derive(Debug, PartialEq)]
pub struct ParseError {
    pub expected: Expected,
    pub found: Token,
}

/// A syntax error as contracts speak of it.
pub struct ParseErrorView {
    pub expected: Expected,
    pub found: TokenView,
}

impl View for ParseError {
    type V = ParseErrorView;

    open spec fn view(&self) -> ParseErrorView {
        ParseErrorView { expected: self.expected, found: self.found@ }
    }
}

impl Expected {
    /// What was expected, in words.
    pub open spec fn text(self) -> Seq<char> {
        match self {
            Expected::Expression => "an expression"@,
            Expected::Symbol(c) => "'"@ + seq![c] + "'"@,
            Expected::Return => "'return'"@,
        }
    }

    /// Appends what was expected, in words, to `out`.
    pub fn describe(&self, out: &mut String)
        ensures
            final(out)@ == old(out)@ + self.text(),
    {
        match self {
            Expected::Expression => {
                out.append("an expression");
            },
            Expected::Symbol(c) => {
                out.append("'");
                out.push(*c);
                out.append("'");
            },
            Expected::Return => {
                out.append("'return'");
            },
        }
    }
}

impl ParseErrorView {
    /// The error in words: the position of the offending token, unless the
    /// input ended there, then what was expected and what was found.
    pub open spec fn message(self) -> Seq<char> {
        let place = match self.found.position() {
            Some(at) => at.text() + ": "@,
            None => Seq::empty(),
        };
        place + "expected "@ + self.expected.text() + ", found "@ + self.found.text()
    }
}

impl ParseError {
    /// The error in words.
    pub fn message(&self) -> (text: String)
        ensures
            text@ == self@.message(),
    {
        let mut text = String::new();
        match self.found.position() {
            Some(at) => {
                at.describe(&mut text);
                text.append(": ");
            },
            None => {},
        }
        text.append("expected ");
        self.expected.describe(&mut text);
        text.append(", found ");
        self.found.describe(&mut text);
        text
    }

    /// Where the offending token starts, unless the input ended.
    pub fn position(&self) -> (at: Option<Position>)
        ensures
            at == self.found.position(),
    {
        self.found.position()
    }
}

/// The one fault that evaluation can meet.
#[derive(Debug, Clone, Copy, PartialEq, Eq, Structural)]
pub enum EvalError {
    DivisionByZero,
}

impl EvalError {
    /// The fault in words.
    pub open spec fn text(self) -> Seq<char> {
        "division by zero"@
    }

    /// The fault in words.
    pub fn message(&self) -> (text: String)
        ensures
            text@ == self.text(),
    {
        "division by zero".to_owned()
    }
}

} // verus!
