use vstd::prelude::*;
use crate::ast::{ASTNode, Operator};
use crate::error::{Expected, ParseError};
use crate::grammar::{
    expression, factor, factor_rest, operator_at, primary, remaining, return_statement,
    symbol_at, term, term_rest, token_at, Parsed, Rejected,
};
use crate::text::spells;
use crate::token::{views_of, Token, TokenView};

verus! {

/// A recursive-descent parser over a finished run of tokens, with one token
/// of lookahead and no backtracking.
pub struct Parser {
    tokens: Vec<Token>,
    pos: usize,
}

/// A parser as contracts speak of it: its tokens, and the index of the next
/// token that it will look at.
pub struct ParserView {
    pub tokens: Seq<TokenView>,
    pub cursor: nat,
}

impl View for Parser {
    type V = ParserView;

    closed spec fn view(&self) -> ParserView {
        ParserView { tokens: views_of(self.tokens@), cursor: self.pos as nat }
    }
}

/// How a parsing step that started in `before` has to end where the grammar
/// gives `rule` for it: the tokens stay, and the cursor stays within them; on
/// success the tree is the rule's and the cursor stands behind the tokens it
/// spans; on failure the error is the rule's and the cursor stands on the
/// offending token.
pub open spec fn follows(
    before: ParserView,
    after: ParserView,
    result: Result<ASTNode, ParseError>,
    rule: Result<Parsed, Rejected>,
) -> bool {
    &&& after.tokens == before.tokens
    &&& after.cursor <= after.tokens.len()
    &&& match rule {
        Ok(parsed) => {
            &&& result matches Ok(node)
            &&& node@ == parsed.node
            &&& after.cursor == before.cursor + parsed.len
        },
        Err(rejected) => {
            &&& result matches Err(error)
            &&& error@ == rejected.error(before.tokens)
            &&& after.cursor == rejected.at
        },
    }
}

impl Parser {
    #[verifier::type_invariant]
    spec fn cursor_in_bounds(self) -> bool {
        self.pos <= self.tokens.len()
    }

    /// A parser that stands on the first of `tokens`.
    pub fn new(tokens: Vec<Token>) -> (parser: Parser)
        ensures
            parser@ == (ParserView { tokens: views_of(tokens@), cursor: 0 }),
    {
        Parser { tokens, pos: 0 }
    }

    /// The token under the cursor; past the last token, the end of input.
    fn peek(&self) -> (token: &Token)
        ensures
            token@ == token_at(self@.tokens, self@.cursor),
            !(token@ is Eof) ==> self@.cursor < self@.tokens.len(),
            self@.cursor <= self@.tokens.len(),
    {
        proof {
            use_type_invariant(self);
        }
        if self.pos < self.tokens.len() {
            &self.tokens[self.pos]
        } else {
            &Token::Eof
        }
    }

    /// Steps over the token under the cursor.
    fn advance(&mut self)
        requires
            old(self)@.cursor < old(self)@.tokens.len(),
        ensures
            final(self)@.tokens == old(self)@.tokens,
            final(self)@.cursor == old(self)@.cursor + 1,
    {
        proof {
            use_type_invariant(&*self);
        }
        self.pos += 1;
    }

    /// The operator under the cursor, if the token there spells one.
    fn peek_operator(&self) -> (op: Option<Operator>)
        ensures
            op == operator_at(self@.tokens, self@.cursor),
            op is Some ==> self@.cursor < self@.tokens.len(),
            self@.cursor <= self@.tokens.len(),
    {
        match self.peek() {
            Token::Symbol(c, _) => Operator::from_symbol(*c),
            _ => None,
        }
    }

    /// Whether the token under the cursor is the symbol `ch`.
    fn at_symbol(&self, ch: char) -> (yes: bool)
        ensures
            yes == symbol_at(self@.tokens, self@.cursor, ch),
            yes ==> self@.cursor < self@.tokens.len(),
    {
        match self.peek() {
            Token::Symbol(c, _) => *c == ch,
            _ => false,
        }
    }

    /// Steps over the symbol `ch`, or reports the token found in its place.
    fn expect_symbol(&mut self, ch: char) -> (result: Result<(), ParseError>)
        ensures
            final(self)@.tokens == old(self)@.tokens,
            final(self)@.cursor <= final(self)@.tokens.len(),
            match result {
                Ok(()) => {
                    &&& symbol_at(old(self)@.tokens, old(self)@.cursor, ch)
                    &&& final(self)@.cursor == old(self)@.cursor + 1
                },
                Err(error) => {
                    &&& !symbol_at(old(self)@.tokens, old(self)@.cursor, ch)
                    &&& final(self)@.cursor == old(self)@.cursor
                    &&& error@.expected == Expected::Symbol(ch)
                    &&& error@.found == token_at(old(self)@.tokens, old(self)@.cursor)
                },
            },
    {
        if self.at_symbol(ch) {
            self.advance();
            Ok(())
        } else {
            Err(ParseError { expected: Expected::Symbol(ch), found: self.peek().clone() })
        }
    }

    /// Parses one expression from the cursor on.
    pub fn parse_expression(&mut self) -> (result: Result<ASTNode, ParseError>)
        ensures
            follows(
                old(self)@,
                final(self)@,
                result,
                expression(old(self)@.tokens, old(self)@.cursor),
            ),
        decreases remaining(old(self)@.tokens, old(self)@.cursor), 3nat,
    {
        self.parse_term()
    }

    /// Parses factors joined by `+` and `-`, grouping to the left.
    fn parse_term(&mut self) -> (result: Result<ASTNode, ParseError>)
        ensures
            follows(old(self)@, final(self)@, result, term(old(self)@.tokens, old(self)@.cursor)),
        decreases remaining(old(self)@.tokens, old(self)@.cursor), 2nat,
    {
        let ghost tokens = self@.tokens;
        let ghost from = self@.cursor;
        let mut node = match self.parse_factor() {
            Ok(first) => first,
            Err(error) => {
                return Err(error);
            },
        };
        loop
            invariant
                self@.tokens == tokens,
                from == old(self)@.cursor,
                tokens == old(self)@.tokens,
                self@.cursor >= from,
                term_rest(
                    tokens,
                    from,
                    Parsed { node: node@, len: (self@.cursor - from) as nat },
                ) == term(tokens, from),
            decreases remaining(tokens, self@.cursor),
        {
            let op = match self.peek_operator() {
                Some(Operator::Add) => Operator::Add,
                Some(Operator::Sub) => Operator::Sub,
                _ => {
                    return Ok(node);
                },
            };
            self.advance();
            let right = match self.parse_factor() {
                Ok(right) => right,
                Err(error) => {
                    return Err(error);
                },
            };
            node = ASTNode::BinaryOp { op, left: Box::new(node), right: Box::new(right) };
        }
    }

    /// Parses primaries joined by `*` and `/`, grouping to the left.
    fn parse_factor(&mut self) -> (result: Result<ASTNode, ParseError>)
        ensures
            follows(old(self)@, final(self)@, result, factor(old(self)@.tokens, old(self)@.cursor)),
        decreases remaining(old(self)@.tokens, old(self)@.cursor), 1nat,
    {
        let ghost tokens = self@.tokens;
        let ghost from = self@.cursor;
        let mut node = match self.parse_primary() {
            Ok(first) => first,
            Err(error) => {
                return Err(error);
            },
        };
        loop
            invariant
                self@.tokens == tokens,
                from == old(self)@.cursor,
                tokens == old(self)@.tokens,
                self@.cursor >= from,
                factor_rest(
                    tokens,
                    from,
                    Parsed { node: node@, len: (self@.cursor - from) as nat },
                ) == factor(tokens, from),
            decreases remaining(tokens, self@.cursor),
        {
            let op = match self.peek_operator() {
                Some(Operator::Mul) => Operator::Mul,
                Some(Operator::Div) => Operator::Div,
                _ => {
                    return Ok(node);
                },
            };
            self.advance();
            let right = match self.parse_primary() {
                Ok(right) => right,
                Err(error) => {
                    return Err(error);
                },
            };
            node = ASTNode::BinaryOp { op, left: Box::new(node), right: Box::new(right) };
        }
    }

    /// Parses a number, an identifier with an optional assignment to it, or
    /// an expression in parentheses.
    fn parse_primary(&mut self) -> (result: Result<ASTNode, ParseError>)
        ensures
            follows(
                old(self)@,
                final(self)@,
                result,
                primary(old(self)@.tokens, old(self)@.cursor),
            ),
        decreases remaining(old(self)@.tokens, old(self)@.cursor), 0nat,
    {
        let current = self.peek().clone();
        match current {
            Token::Number(value, _) => {
                self.advance();
                Ok(ASTNode::Number(value))
            },
            Token::Identifier(name, _) => {
                self.advance();
                if self.at_symbol('=') {
                    self.advance();
                    match self.parse_expression() {
                        Ok(value) => Ok(ASTNode::Assignment(name, Box::new(value))),
                        Err(error) => Err(error),
                    }
                } else {
                    Ok(ASTNode::Identifier(name))
                }
            },
            Token::Symbol('(', _) => {
                self.advance();
                match self.parse_expression() {
                    Ok(inner) => match self.expect_symbol(')') {
                        Ok(()) => Ok(inner),
                        Err(error) => Err(error),
                    },
                    Err(error) => Err(error),
                }
            },
            _ => Err(ParseError { expected: Expected::Expression, found: current }),
        }
    }

    /// Parses `return <expression> ;` from the cursor on.
    pub fn parse_return(&mut self) -> (result: Result<ASTNode, ParseError>)
        ensures
            follows(
                old(self)@,
                final(self)@,
                result,
                return_statement(old(self)@.tokens, old(self)@.cursor),
            ),
            result matches Ok(node) ==> node@ is Return,
    {
        let at_return = match self.peek() {
            Token::Keyword(text, _) => spells(text.as_str(), "return"),
            _ => false,
        };
        if !at_return {
            return Err(ParseError { expected: Expected::Return, found: self.peek().clone() });
        }
        self.advance();
        match self.parse_expression() {
            Ok(value) => match self.expect_symbol(';') {
                Ok(()) => Ok(ASTNode::Return(Box::new(value))),
                Err(error) => Err(error),
            },
            Err(error) => Err(error),
        }
    }
}

} // verus!
