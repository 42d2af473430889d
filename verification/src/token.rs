use vstd::prelude::*;
use vstd::string::StringExecFns;
use crate::text::{decimal_text, push_decimal, push_signed, signed_text};

verus! {

/// Where a token starts: the line, counted from 1, and the column, counted
/// from 0 in characters since the last line break.
#[derive(Debug, Clone, Copy, PartialEq, Eq, Structural)]
pub struct Position {
    pub line: usize,
    pub column: usize,
}

/// A position as contracts speak of it, free of machine limits.
pub struct PositionView {
    pub line: nat,
    pub column: nat,
}

impl View for Position {
    type V = PositionView;

    open spec fn view(&self) -> PositionView {
        PositionView { line: self.line as nat, column: self.column as nat }
    }
}

/// One classified unit of source text.
#[derive(Debug, PartialEq)]
pub enum Token {
    Number(i32, Position),
    Identifier(String, Position),
    Keyword(String, Position),
    Symbol(char, Position),
    Eof,
}

/// A token as contracts speak of it: names are sequences of characters.
pub enum TokenView {
    Number(i32, PositionView),
    Identifier(Seq<char>, PositionView),
    Keyword(Seq<char>, PositionView),
    Symbol(char, PositionView),
    Eof,
}

impl View for Token {
    type V = TokenView;

    open spec fn view(&self) -> TokenView {
        match self {
            Token::Number(value, at) => TokenView::Number(*value, at@),
            Token::Identifier(name, at) => TokenView::Identifier(name@, at@),
            Token::Keyword(text, at) => TokenView::Keyword(text@, at@),
            Token::Symbol(c, at) => TokenView::Symbol(*c, at@),
            Token::Eof => TokenView::Eof,
        }
    }
}

impl Clone for Token {
    fn clone(&self) -> (copy: Token)
        ensures
            copy@ == self@,
    {
        match self {
            Token::Number(value, at) => Token::Number(*value, *at),
            Token::Identifier(name, at) => Token::Identifier(name.clone(), *at),
            Token::Keyword(text, at) => Token::Keyword(text.clone(), *at),
            Token::Symbol(c, at) => Token::Symbol(*c, *at),
            Token::Eof => Token::Eof,
        }
    }
}

impl Token {
    /// Where the token starts; the end of input has no position.
    pub open spec fn spec_position(&self) -> Option<Position> {
        match self {
            Token::Number(_, at) => Some(*at),
            Token::Identifier(_, at) => Some(*at),
            Token::Keyword(_, at) => Some(*at),
            Token::Symbol(_, at) => Some(*at),
            Token::Eof => None,
        }
    }

    /// Where the token starts; the end of input has no position.
    #[verifier::when_used_as_spec(spec_position)]
    pub fn position(&self) -> (at: Option<Position>)
        ensures
            at == self.spec_position(),
    {
        match self {
            Token::Number(_, at) => Some(*at),
            Token::Identifier(_, at) => Some(*at),
            Token::Keyword(_, at) => Some(*at),
            Token::Symbol(_, at) => Some(*at),
            Token::Eof => None,
        }
    }
}

impl PositionView {
    /// The position in words: `line L, column C`.
    pub open spec fn text(self) -> Seq<char> {
        "line "@ + decimal_text(self.line) + ", column "@ + decimal_text(self.column)
    }
}

impl TokenView {
    /// Where the token starts; the end of input has no position.
    pub open spec fn position(self) -> Option<PositionView> {
        match self {
            TokenView::Number(_, at) => Some(at),
            TokenView::Identifier(_, at) => Some(at),
            TokenView::Keyword(_, at) => Some(at),
            TokenView::Symbol(_, at) => Some(at),
            TokenView::Eof => None,
        }
    }

    /// The token in words, as an error message names it.
    pub open spec fn text(self) -> Seq<char> {
        match self {
            TokenView::Number(value, _) => "number "@ + signed_text(value as int),
            TokenView::Identifier(name, _) => "identifier '"@ + name + "'"@,
            TokenView::Keyword(text, _) => "keyword '"@ + text + "'"@,
            TokenView::Symbol(c, _) => "symbol '"@ + seq![c] + "'"@,
            TokenView::Eof => "end of input"@,
        }
    }
}

impl Position {
    /// Appends the position in words to `out`.
    pub fn describe(&self, out: &mut String)
        ensures
            final(out)@ == old(out)@ + self@.text(),
    {
        out.append("line ");
        push_decimal(out, self.line as u64);
        out.append(", column ");
        push_decimal(out, self.column as u64);
    }
}

impl Token {
    /// Appends the token in words to `out`.
    pub fn describe(&self, out: &mut String)
        ensures
            final(out)@ == old(out)@ + self@.text(),
    {
        match self {
            Token::Number(value, _) => {
                out.append("number ");
                push_signed(out, *value);
            },
            Token::Identifier(name, _) => {
                out.append("identifier '");
                out.append(name.as_str());
                out.append("'");
            },
            Token::Keyword(text, _) => {
                out.append("keyword '");
                out.append(text.as_str());
                out.append("'");
            },
            Token::Symbol(c, _) => {
                out.append("symbol '");
                out.push(*c);
                out.append("'");
            },
            Token::Eof => {
                out.append("end of input");
            },
        }
    }
}

/// The views of a run of tokens, in order.
pub open spec fn views_of(tokens: Seq<Token>) -> Seq<TokenView> {
    tokens.map_values(|t: Token| t@)
}

} // verus!
