use vstd::prelude::*;
use crate::charclass::{
    continues_word, is_ascii_digit, is_digit, is_space, is_whitespace, is_word_part,
    lemma_leading_is, starts_word, to_digit, CharClass,
};
use crate::lexical::{
    is_keyword, lemma_advance_none, lemma_advance_one, lemma_position_step,
    lemma_token_consumes, number_token, number_value, word_token, LexerView,
};
use crate::text::spells;
use crate::token::{views_of, Position, PositionView, Token, TokenView};

verus! {

/// Turns source text into tokens, one at a time.
pub struct Lexer {
    input: Vec<char>,
    offset: usize,
    breaks: usize,
    column: usize,
}

impl View for Lexer {
    type V = LexerView;

    closed spec fn view(&self) -> LexerView {
        LexerView {
            rest: self.input@.skip(self.offset as int),
            position: PositionView { line: self.breaks as nat + 1, column: self.column as nat },
        }
    }
}

impl Lexer {
    #[verifier::type_invariant]
    spec fn counters_in_bounds(self) -> bool {
        &&& self.offset <= self.input.len()
        &&& self.breaks <= self.offset
        &&& self.column <= self.offset
    }

    /// A tokenizer at the start of `source`: line 1, column 0.
    pub fn new(source: &str) -> (lexer: Lexer)
        ensures
            lexer@ == LexerView::start(source@),
    {
        let mut input: Vec<char> = Vec::new();
        for c in it: source.chars()
            invariant
                input@ == it.seq().take(it.index()),
                it.seq() == source@,
        {
            input.push(c);
        }
        assert(input@.skip(0) =~= source@);
        Lexer { input, offset: 0, breaks: 0, column: 0 }
    }

    /// The character under the cursor, if the input has not ended.
    fn peek(&self) -> (next: Option<char>)
        ensures
            next == (if self@.rest.len() > 0 {
                Some(self@.rest[0])
            } else {
                None
            }),
    {
        proof {
            use_type_invariant(&*self);
        }
        if self.offset < self.input.len() {
            Some(self.input[self.offset])
        } else {
            None
        }
    }

    /// Reads the character under the cursor.
    fn bump(&mut self)
        requires
            old(self)@.rest.len() > 0,
        ensures
            final(self)@ == old(self)@.advance(1),
    {
        proof {
            use_type_invariant(&*self);
            lemma_position_step(self@.position, self@.rest, 0);
            assert(self@.rest.take(0) =~= Seq::<char>::empty());
            assert(self.input@.skip(self.offset as int).skip(1) =~= self.input@.skip(
                self.offset + 1,
            ));
        }
        let c = self.input[self.offset];
        self.offset += 1;
        if c == '\n' {
            self.breaks += 1;
            self.column = 0;
        } else {
            self.column += 1;
        }
    }

    /// The position of the character under the cursor.
    fn position(&self) -> (at: Position)
        requires
            self@.rest.len() > 0,
        ensures
            at@ == self@.position,
    {
        proof {
            use_type_invariant(&*self);
        }
        Position { line: self.breaks + 1, column: self.column }
    }

    /// Reads the next token. At the end of the input it gives `Token::Eof`,
    /// and gives it again on every later call.
    pub fn next_token(&mut self) -> (token: Token)
        ensures
            token@ == old(self)@.next_token().0,
            final(self)@ == old(self)@.next_token().1,
    {
        self.skip_whitespace();
        let ch = match self.peek() {
            Some(c) => c,
            None => {
                return Token::Eof;
            },
        };
        let pos = self.position();
        if is_ascii_digit(ch) {
            return self.lex_number(pos);
        }
        if starts_word(ch) {
            return self.lex_identifier_or_keyword(pos);
        }
        self.bump();
        Token::Symbol(ch, pos)
    }

    /// Reads the digits under the cursor into a number token at `pos`.
    /// A value that an `i32` cannot hold becomes `i32::MAX`.
    fn lex_number(&mut self, pos: Position) -> (token: Token)
        ensures
            token@ == number_token(old(self)@.run(CharClass::Digit), pos@),
            final(self)@ == old(self)@.pass(CharClass::Digit),
    {
        let ghost before = self@;
        let ghost n: nat = 0;
        let mut number: i32 = 0;
        proof {
            lemma_advance_none(before);
            assert(before.rest.take(0) =~= Seq::<char>::empty());
        }
        loop
            invariant
                n <= before.rest.len(),
                self@ == before.advance(n),
                forall|i: int| 0 <= i < n ==> is_digit(#[trigger] before.rest[i]),
                number == number_value(before.rest.take(n as int)),
            ensures
                n == before.rest.len() || !is_digit(before.rest[n as int]),
            decreases before.rest.len() - n,
        {
            let ch = match self.peek() {
                Some(c) => c,
                None => {
                    break;
                },
            };
            proof {
                if n < before.rest.len() {
                    lemma_advance_one(before, n);
                }
            }
            let d = match to_digit(ch) {
                Some(d) => d,
                None => {
                    break;
                },
            };
            proof {
                assert(before.rest.take(n + 1 as int).drop_last() =~= before.rest.take(n as int));
            }
            number = if number <= (i32::MAX - d) / 10 {
                number * 10 + d
            } else {
                i32::MAX
            };
            self.bump();
            proof {
                n = n + 1;
            }
        }
        proof {
            lemma_leading_is(before.rest, CharClass::Digit, n);
        }
        Token::Number(number, pos)
    }

    /// Reads the word under the cursor into a token at `pos`: a keyword
    /// where the word is reserved, an identifier otherwise.
    fn lex_identifier_or_keyword(&mut self, pos: Position) -> (token: Token)
        ensures
            token@ == word_token(old(self)@.run(CharClass::Word), pos@),
            final(self)@ == old(self)@.pass(CharClass::Word),
    {
        let ghost before = self@;
        let ghost n: nat = 0;
        let mut ident = String::new();
        proof {
            lemma_advance_none(before);
            assert(before.rest.take(0) =~= Seq::<char>::empty());
        }
        loop
            invariant
                n <= before.rest.len(),
                self@ == before.advance(n),
                forall|i: int| 0 <= i < n ==> is_word_part(#[trigger] before.rest[i]),
                ident@ == before.rest.take(n as int),
            ensures
                n == before.rest.len() || !is_word_part(before.rest[n as int]),
            decreases before.rest.len() - n,
        {
            let ch = match self.peek() {
                Some(c) => c,
                None => {
                    break;
                },
            };
            proof {
                if n < before.rest.len() {
                    lemma_advance_one(before, n);
                }
            }
            if !continues_word(ch) {
                break;
            }
            ident.push(ch);
            self.bump();
            proof {
                assert(before.rest.take(n + 1 as int) =~= before.rest.take(n as int).push(ch));
                n = n + 1;
            }
        }
        proof {
            lemma_leading_is(before.rest, CharClass::Word, n);
        }
        if is_reserved(ident.as_str()) {
            Token::Keyword(ident, pos)
        } else {
            Token::Identifier(ident, pos)
        }
    }

    /// Reads the whitespace under the cursor.
    fn skip_whitespace(&mut self)
        ensures
            final(self)@ == old(self)@.skip_whitespace(),
    {
        let ghost before = self@;
        let ghost n: nat = 0;
        proof {
            lemma_advance_none(before);
        }
        loop
            invariant
                n <= before.rest.len(),
                self@ == before.advance(n),
                forall|i: int| 0 <= i < n ==> is_whitespace(#[trigger] before.rest[i]),
            ensures
                n == before.rest.len() || !is_whitespace(before.rest[n as int]),
            decreases before.rest.len() - n,
        {
            let ch = match self.peek() {
                Some(c) => c,
                None => {
                    break;
                },
            };
            proof {
                if n < before.rest.len() {
                    lemma_advance_one(before, n);
                }
            }
            if !is_space(ch) {
                break;
            }
            self.bump();
            proof {
                n = n + 1;
            }
        }
        proof {
            lemma_leading_is(before.rest, CharClass::Whitespace, n);
        }
    }
}

/// All the tokens of `source`, in order, up to the end of the input.
pub fn tokenize(source: &str) -> (tokens: Vec<Token>)
    ensures
        views_of(tokens@) == LexerView::start(source@).tokens(),
{
    let mut lexer = Lexer::new(source);
    let mut tokens: Vec<Token> = Vec::new();
    assert(views_of(tokens@) =~= Seq::<TokenView>::empty());
    loop
        invariant
            views_of(tokens@) + lexer@.tokens() == LexerView::start(source@).tokens(),
        ensures
            views_of(tokens@) == LexerView::start(source@).tokens(),
        decreases lexer@.rest.len(),
    {
        let ghost before = lexer@;
        let ghost seen = views_of(tokens@);
        proof {
            lemma_token_consumes(before);
        }
        let token = lexer.next_token();
        if let Token::Eof = token {
            assert(seen + Seq::<TokenView>::empty() =~= seen);
            break;
        }
        tokens.push(token);
        proof {
            assert(views_of(tokens@) =~= seen.push(token@));
            assert(seen.push(token@) + lexer@.tokens() =~= seen + (seq![token@]
                + lexer@.tokens()));
        }
    }
    tokens
}

/// Whether `word` is one of the reserved words.
pub fn is_reserved(word: &str) -> (reserved: bool)
    ensures
        reserved == is_keyword(word@),
{
    spells(word, "int") || spells(word, "return") || spells(word, "if") || spells(word, "else")
        || spells(word, "while") || spells(word, "for")
}

} // verus!
