use vstd::prelude::*;
use crate::charclass::{
    digit_value, is_digit, is_whitespace, is_word_part, is_word_start, leading,
    lemma_leading_bounds, lemma_leading_is, CharClass,
};
use crate::token::{PositionView, TokenView};

verus! {

/// Where the reader stands after it has read `text` from `start` on: a line
/// break opens the next line at column 0, any other character moves one
/// column on.
pub open spec fn position_after(start: PositionView, text: Seq<char>) -> PositionView
    decreases text.len(),
{
    if text.len() == 0 {
        start
    } else {
        let before = position_after(start, text.drop_last());
        if text.last() == '\n' {
            PositionView { line: before.line + 1, column: 0 }
        } else {
            PositionView { line: before.line, column: before.column + 1 }
        }
    }
}

/// The number that a run of decimal digits writes in base 10.
pub open spec fn decimal_value(digits: Seq<char>) -> nat
    decreases digits.len(),
{
    if digits.len() == 0 {
        0
    } else {
        decimal_value(digits.drop_last()) * 10 + digit_value(digits.last())
    }
}

/// The value of a number token: that of its digits where an `i32` holds it,
/// and `i32::MAX` for every larger one.
pub open spec fn number_value(digits: Seq<char>) -> i32 {
    if decimal_value(digits) <= i32::MAX {
        decimal_value(digits) as i32
    } else {
        i32::MAX
    }
}

/// The reserved words of the language.
pub open spec fn is_keyword(text: Seq<char>) -> bool {
    ||| text == "int"@
    ||| text == "return"@
    ||| text == "if"@
    ||| text == "else"@
    ||| text == "while"@
    ||| text == "for"@
}

/// The token that a run of digits makes at `at`.
pub open spec fn number_token(digits: Seq<char>, at: PositionView) -> TokenView {
    TokenView::Number(number_value(digits), at)
}

/// The token that a word makes at `at`: a keyword where the word is
/// reserved, an identifier otherwise.
pub open spec fn word_token(word: Seq<char>, at: PositionView) -> TokenView {
    if is_keyword(word) {
        TokenView::Keyword(word, at)
    } else {
        TokenView::Identifier(word, at)
    }
}

/// A tokenizer as contracts speak of it: the characters not yet read, and
/// the position of the first of them.
pub struct LexerView {
    pub rest: Seq<char>,
    pub position: PositionView,
}

impl LexerView {
    /// The state before anything of `source` is read: line 1, column 0.
    pub open spec fn start(source: Seq<char>) -> LexerView {
        LexerView { rest: source, position: PositionView { line: 1, column: 0 } }
    }

    /// The state after the next `n` characters are read.
    pub open spec fn advance(self, n: nat) -> LexerView {
        LexerView {
            rest: self.rest.skip(n as int),
            position: position_after(self.position, self.rest.take(n as int)),
        }
    }

    /// The state after the longest run of `class` at the front has been read.
    pub open spec fn pass(self, class: CharClass) -> LexerView {
        self.advance(leading(self.rest, class))
    }

    /// The longest run of `class` at the front.
    pub open spec fn run(self, class: CharClass) -> Seq<char> {
        self.rest.take(leading(self.rest, class) as int)
    }

    /// The state after the whitespace at the front has been read.
    pub open spec fn skip_whitespace(self) -> LexerView {
        self.pass(CharClass::Whitespace)
    }

    /// The token at the front of a state that starts with no whitespace,
    /// and the state behind that token.
    pub open spec fn token_here(self) -> (TokenView, LexerView) {
        if self.rest.len() == 0 {
            (TokenView::Eof, self)
        } else if is_digit(self.rest[0]) {
            (number_token(self.run(CharClass::Digit), self.position), self.pass(CharClass::Digit))
        } else if is_word_start(self.rest[0]) {
            (word_token(self.run(CharClass::Word), self.position), self.pass(CharClass::Word))
        } else {
            (TokenView::Symbol(self.rest[0], self.position), self.advance(1))
        }
    }

    /// The next token, and the state behind it.
    pub open spec fn next_token(self) -> (TokenView, LexerView) {
        self.skip_whitespace().token_here()
    }

    /// All the tokens from here on, in order, up to the end of the input.
    pub open spec fn tokens(self) -> Seq<TokenView>
        decreases self.rest.len(),
    {
        let (token, next) = self.next_token();
        if token is Eof {
            Seq::empty()
        } else {
            proof {
                lemma_token_consumes(self);
            }
            seq![token] + next.tokens()
        }
    }
}

/// Reading a run of `class` leaves a suffix of the text, and a shorter one
/// where the text starts with a character of the class.
pub proof fn lemma_pass_consumes(state: LexerView, class: CharClass)
    ensures
        state.pass(class).rest.len() == state.rest.len() - leading(state.rest, class),
        leading(state.rest, class) <= state.rest.len(),
        state.rest.len() > 0 && class.contains(state.rest[0]) ==> leading(state.rest, class) > 0,
        state.pass(class).rest.len() > 0 ==> !class.contains(state.pass(class).rest[0]),
{
    lemma_leading_bounds(state.rest, class);
}

/// Every token but the end of input takes at least one character, and no
/// token gives any back.
pub proof fn lemma_token_consumes(state: LexerView)
    ensures
        state.next_token().1.rest.len() <= state.rest.len(),
        !(state.next_token().0 is Eof) ==> state.next_token().1.rest.len() < state.rest.len(),
        state.next_token().0 is Eof ==> state.next_token().1.rest.len() == 0,
{
    lemma_pass_consumes(state, CharClass::Whitespace);
    let ready = state.skip_whitespace();
    if ready.rest.len() > 0 {
        lemma_pass_consumes(ready, CharClass::Digit);
        lemma_pass_consumes(ready, CharClass::Word);
    }
}

/// Reading `k` characters and then one more is reading `k + 1`.
pub proof fn lemma_advance_one(state: LexerView, k: nat)
    requires
        k < state.rest.len(),
    ensures
        state.advance(k).advance(1) == state.advance(k + 1),
        state.advance(k).rest.len() > 0,
        state.advance(k).rest[0] == state.rest[k as int],
{
    let mid = state.advance(k);
    assert(mid.rest.skip(1) =~= state.rest.skip(k + 1 as int));
    lemma_position_step(state.position, state.rest, k as int);
    lemma_position_step(mid.position, mid.rest, 0);
    assert(mid.rest.take(0) =~= Seq::<char>::empty());
}

/// Reading nothing changes nothing.
pub proof fn lemma_advance_none(state: LexerView)
    ensures
        state.advance(0) == state,
{
    assert(state.rest.skip(0) =~= state.rest);
    assert(state.rest.take(0) =~= Seq::<char>::empty());
}


/// Reading one more character moves the position by that character alone.
pub proof fn lemma_position_step(start: PositionView, text: Seq<char>, n: int)
    requires
        0 <= n < text.len(),
    ensures
        position_after(start, text.take(n + 1)) == (if text[n] == '\n' {
            PositionView { line: position_after(start, text.take(n)).line + 1, column: 0 }
        } else {
            PositionView {
                line: position_after(start, text.take(n)).line,
                column: position_after(start, text.take(n)).column + 1,
            }
        }),
{
    assert(text.take(n + 1).drop_last() =~= text.take(n));
}

/// Reading a text in two parts ends where reading it whole ends.
pub proof fn lemma_position_split(start: PositionView, text: Seq<char>, n: int)
    requires
        0 <= n <= text.len(),
    ensures
        position_after(position_after(start, text.take(n)), text.skip(n)) == position_after(
            start,
            text,
        ),
    decreases text.len() - n,
{
    if n == text.len() {
        assert(text.take(n) =~= text);
        assert(text.skip(n).len() == 0);
    } else {
        let shorter = text.drop_last();
        lemma_position_split(start, shorter, n);
        assert(shorter.take(n) =~= text.take(n));
        assert(text.skip(n).drop_last() =~= shorter.skip(n));
        assert(text.skip(n).last() == text.last());
    }
}

/// A text without line breaks moves the column by its length.
pub proof fn lemma_position_on_line(start: PositionView, text: Seq<char>)
    requires
        forall|i: int| 0 <= i < text.len() ==> text[i] != '\n',
    ensures
        position_after(start, text) == (PositionView {
            line: start.line,
            column: start.column + text.len(),
        }),
    decreases text.len(),
{
    if text.len() > 0 {
        lemma_position_on_line(start, text.drop_last());
    }
}

/// Reading `a` characters and then `b` more is reading `a + b`.
pub proof fn lemma_advance_twice(state: LexerView, a: nat, b: nat)
    requires
        a + b <= state.rest.len(),
    ensures
        state.advance(a).advance(b) == state.advance(a + b),
{
    let mid = state.advance(a);
    let whole = state.rest.take(a + b as int);
    assert(mid.rest.skip(b as int) =~= state.rest.skip(a + b as int));
    assert(whole.take(a as int) =~= state.rest.take(a as int));
    assert(whole.skip(a as int) =~= mid.rest.take(b as int));
    lemma_position_split(state.position, whole, a as int);
}

/// The state in which a token starts that `w` characters of whitespace
/// precede.
pub proof fn lemma_skips(state: LexerView, w: nat)
    requires
        w <= state.rest.len(),
        forall|i: int| 0 <= i < w ==> is_whitespace(#[trigger] state.rest[i]),
        w == state.rest.len() || !is_whitespace(state.rest[w as int]),
    ensures
        state.skip_whitespace() == state.advance(w),
        state.advance(w).rest.len() == state.rest.len() - w,
        forall|i: int|
            0 <= i < state.rest.len() - w ==> #[trigger] state.advance(w).rest[i] == state.rest[w
                + i],
{
    lemma_leading_is(state.rest, CharClass::Whitespace, w);
}

/// The next token where `w` characters of whitespace come first and a run
/// of `n` digits follows them: a number at the place of its first digit.
pub proof fn lemma_next_is_number(state: LexerView, w: nat, n: nat)
    requires
        n >= 1,
        w + n <= state.rest.len(),
        forall|i: int| 0 <= i < w ==> is_whitespace(#[trigger] state.rest[i]),
        forall|i: int| w <= i < w + n ==> is_digit(#[trigger] state.rest[i]),
        w + n == state.rest.len() || !is_digit(state.rest[w + n as int]),
    ensures
        state.next_token().0 == number_token(
            state.rest.subrange(w as int, w + n as int),
            state.advance(w).position,
        ),
        state.next_token().1 == state.advance(w + n),
{
    assert(is_digit(state.rest[w as int]));
    lemma_skips(state, w);
    let ready = state.advance(w);
    lemma_leading_is(ready.rest, CharClass::Digit, n);
    assert(ready.rest.take(n as int) =~= state.rest.subrange(w as int, w + n as int));
    lemma_advance_twice(state, w, n);
}

/// The next token where `w` characters of whitespace come first and a word
/// of `n` characters follows them: a keyword or an identifier at the place
/// of its first character.
pub proof fn lemma_next_is_word(state: LexerView, w: nat, n: nat)
    requires
        n >= 1,
        w + n <= state.rest.len(),
        forall|i: int| 0 <= i < w ==> is_whitespace(#[trigger] state.rest[i]),
        is_word_start(state.rest[w as int]),
        forall|i: int| w <= i < w + n ==> is_word_part(#[trigger] state.rest[i]),
        w + n == state.rest.len() || !is_word_part(state.rest[w + n as int]),
    ensures
        state.next_token().0 == word_token(
            state.rest.subrange(w as int, w + n as int),
            state.advance(w).position,
        ),
        state.next_token().1 == state.advance(w + n),
{
    lemma_skips(state, w);
    let ready = state.advance(w);
    lemma_leading_is(ready.rest, CharClass::Word, n);
    assert(ready.rest.take(n as int) =~= state.rest.subrange(w as int, w + n as int));
    lemma_advance_twice(state, w, n);
}

/// The next token where `w` characters of whitespace come first and a
/// character follows that is no whitespace and starts neither a number nor a
/// word: that character as a symbol.
pub proof fn lemma_next_is_symbol(state: LexerView, w: nat)
    requires
        w < state.rest.len(),
        forall|i: int| 0 <= i < w ==> is_whitespace(#[trigger] state.rest[i]),
        !is_whitespace(state.rest[w as int]),
        !is_digit(state.rest[w as int]),
        !is_word_start(state.rest[w as int]),
    ensures
        state.next_token().0 == TokenView::Symbol(
            state.rest[w as int],
            state.advance(w).position,
        ),
        state.next_token().1 == state.advance(w + 1),
{
    lemma_skips(state, w);
    lemma_advance_twice(state, w, 1);
}

/// The next token where nothing but whitespace is left: the end of input.
pub proof fn lemma_next_is_end(state: LexerView)
    requires
        forall|i: int| 0 <= i < state.rest.len() ==> is_whitespace(#[trigger] state.rest[i]),
    ensures
        state.next_token().0 is Eof,
        state.next_token().1 == state.advance(state.rest.len()),
{
    lemma_skips(state, state.rest.len());
}

} // verus!
