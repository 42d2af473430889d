use vstd::prelude::*;
use crate::ast::{NodeView, Operator};
use crate::charclass::{is_digit, is_word_part, is_word_start, lemma_leading_is, CharClass};
use crate::error::EvalError;
use crate::grammar::{
    expression, factor, factor_rest, join, operator_at, primary, return_statement, term,
    term_rest, Parsed, Rejected,
};
use crate::lexer::Lexer;
use crate::lexical::{
    decimal_value, is_keyword, lemma_advance_none, lemma_next_is_end, lemma_next_is_symbol,
    lemma_next_is_word, lemma_position_on_line, word_token, LexerView,
};
use crate::token::{PositionView, TokenView};
use crate::vm::quotient;

verus! {

/// The first token of a text that is one run of `class` from its first
/// character to its last takes the whole text, and the end of input follows.
proof fn lemma_one_run(text: Seq<char>, class: CharClass)
    requires
        text.len() >= 1,
        class != CharClass::Whitespace,
        forall|i: int| 0 <= i < text.len() ==> class.contains(#[trigger] text[i]),
    ensures
        LexerView::start(text).skip_whitespace() == LexerView::start(text),
        LexerView::start(text).run(class) == text,
        LexerView::start(text).pass(class).rest.len() == 0,
        LexerView::start(text).pass(class).next_token().0 is Eof,
{
    let start = LexerView::start(text);
    assert(class.contains(text[0]));
    lemma_leading_is(text, CharClass::Whitespace, 0);
    lemma_advance_none(start);
    lemma_leading_is(text, class, text.len());
    assert(text.take(text.len() as int) =~= text);
    let end = start.pass(class);
    lemma_leading_is(end.rest, CharClass::Whitespace, 0);
    lemma_advance_none(end);
}

/// A text of one or more decimal digits and nothing else is a single number
/// token at line 1, column 0, whose value is the number that the digits write
/// in base 10, and the end of input follows it. This holds of the values that
/// an `i32` holds: a larger one is read as `i32::MAX`.
pub proof fn lemma_digits_are_one_number(text: Seq<char>)
    requires
        text.len() >= 1,
        forall|i: int| 0 <= i < text.len() ==> is_digit(#[trigger] text[i]),
        decimal_value(text) <= i32::MAX,
    ensures
        LexerView::start(text).next_token().0 == TokenView::Number(
            decimal_value(text) as i32,
            PositionView { line: 1, column: 0 },
        ),
        LexerView::start(text).next_token().1.next_token().0 is Eof,
        LexerView::start(text).tokens() == seq![
            TokenView::Number(decimal_value(text) as i32, PositionView { line: 1, column: 0 }),
        ],
{
    lemma_one_run(text, CharClass::Digit);
    let next = LexerView::start(text).next_token().1;
    assert(next.tokens() =~= Seq::<TokenView>::empty());
    assert(LexerView::start(text).tokens() =~= seq![LexerView::start(text).next_token().0]);
}

/// A text that starts with a letter or an underscore and goes on with
/// letters, digits and underscores alone is a single token at line 1,
/// column 0, that carries the text as it stands: a keyword where the text is
/// a reserved word, an identifier where it is not. The end of input follows.
pub proof fn lemma_word_is_one_token(text: Seq<char>)
    requires
        text.len() >= 1,
        is_word_start(text[0]),
        forall|i: int| 0 <= i < text.len() ==> is_word_part(#[trigger] text[i]),
    ensures
        is_keyword(text) ==> LexerView::start(text).next_token().0 == TokenView::Keyword(
            text,
            PositionView { line: 1, column: 0 },
        ),
        !is_keyword(text) ==> LexerView::start(text).next_token().0 == TokenView::Identifier(
            text,
            PositionView { line: 1, column: 0 },
        ),
        LexerView::start(text).next_token().1.next_token().0 is Eof,
        LexerView::start(text).tokens() == seq![
            word_token(text, PositionView { line: 1, column: 0 }),
        ],
{
    lemma_one_run(text, CharClass::Word);
    let next = LexerView::start(text).next_token().1;
    assert(next.tokens() =~= Seq::<TokenView>::empty());
    assert(LexerView::start(text).tokens() =~= seq![LexerView::start(text).next_token().0]);
}

/// Two tokenizers made from the same source give the same tokens in the
/// same order: what a tokenizer gives depends on nothing but the text that
/// it was made from.
pub proof fn lemma_same_source_same_tokens(first: Lexer, second: Lexer, source: Seq<char>)
    requires
        first@ == LexerView::start(source),
        second@ == LexerView::start(source),
    ensures
        first@.next_token() == second@.next_token(),
        first@.tokens() == second@.tokens(),
        first@.tokens() == LexerView::start(source).tokens(),
{
}

/// The tree of the number `value`.
pub open spec fn number(value: i32) -> NodeView {
    NodeView::Number(value)
}

/// The tree of `left op right`.
pub open spec fn binary(op: Operator, left: NodeView, right: NodeView) -> NodeView {
    NodeView::BinaryOp { op, left: Box::new(left), right: Box::new(right) }
}

/// Three numbers with two operators between them, `a op1 b op2 c`, group
/// to the left, `(a op1 b) op2 c`, unless the second operator binds tighter
/// than the first: `a + b * c` is `a + (b * c)`.
pub proof fn lemma_three_operands(
    tokens: Seq<TokenView>,
    a: i32,
    op1: Operator,
    b: i32,
    op2: Operator,
    c: i32,
)
    requires
        tokens.len() == 5,
        tokens[0] matches TokenView::Number(v, _) && v == a,
        tokens[1] matches TokenView::Symbol(s, _) && s == op1.spec_symbol(),
        tokens[2] matches TokenView::Number(v, _) && v == b,
        tokens[3] matches TokenView::Symbol(s, _) && s == op2.spec_symbol(),
        tokens[4] matches TokenView::Number(v, _) && v == c,
    ensures
        expression(tokens, 0) == Ok::<Parsed, Rejected>(
            Parsed {
                node: if op1.is_additive() && op2.is_multiplicative() {
                    binary(op1, number(a), binary(op2, number(b), number(c)))
                } else {
                    binary(op2, binary(op1, number(a), number(b)), number(c))
                },
                len: 5,
            },
        ),
{
    let pa = Parsed { node: number(a), len: 1 };
    let pb = Parsed { node: number(b), len: 1 };
    let pc = Parsed { node: number(c), len: 1 };
    assert(primary(tokens, 0) == Ok::<Parsed, Rejected>(pa));
    assert(primary(tokens, 2) == Ok::<Parsed, Rejected>(pb));
    assert(primary(tokens, 4) == Ok::<Parsed, Rejected>(pc));
    assert(operator_at(tokens, 1) == Some(op1));
    assert(operator_at(tokens, 3) == Some(op2));
    assert(operator_at(tokens, 5) is None);
    assert(factor_rest(tokens, 4, pc) == Ok::<Parsed, Rejected>(pc));
    assert(factor(tokens, 4) == Ok::<Parsed, Rejected>(pc));
    if op1.is_multiplicative() {
        let ab = join(op1, pa, pb);
        if op2.is_multiplicative() {
            let abc = join(op2, ab, pc);
            assert(factor_rest(tokens, 0, abc) == Ok::<Parsed, Rejected>(abc));
            assert(factor_rest(tokens, 0, ab) == Ok::<Parsed, Rejected>(abc));
            assert(factor_rest(tokens, 0, pa) == Ok::<Parsed, Rejected>(abc));
            assert(factor(tokens, 0) == Ok::<Parsed, Rejected>(abc));
            assert(term_rest(tokens, 0, abc) == Ok::<Parsed, Rejected>(abc));
        } else {
            let abc = join(op2, ab, pc);
            assert(factor_rest(tokens, 0, ab) == Ok::<Parsed, Rejected>(ab));
            assert(factor_rest(tokens, 0, pa) == Ok::<Parsed, Rejected>(ab));
            assert(factor(tokens, 0) == Ok::<Parsed, Rejected>(ab));
            assert(term_rest(tokens, 0, abc) == Ok::<Parsed, Rejected>(abc));
            assert(term_rest(tokens, 0, ab) == Ok::<Parsed, Rejected>(abc));
        }
    } else {
        assert(factor_rest(tokens, 0, pa) == Ok::<Parsed, Rejected>(pa));
        assert(factor(tokens, 0) == Ok::<Parsed, Rejected>(pa));
        if op2.is_multiplicative() {
            let bc = join(op2, pb, pc);
            let abc = join(op1, pa, bc);
            assert(factor_rest(tokens, 2, bc) == Ok::<Parsed, Rejected>(bc));
            assert(factor_rest(tokens, 2, pb) == Ok::<Parsed, Rejected>(bc));
            assert(factor(tokens, 2) == Ok::<Parsed, Rejected>(bc));
            assert(term_rest(tokens, 0, abc) == Ok::<Parsed, Rejected>(abc));
            assert(term_rest(tokens, 0, pa) == Ok::<Parsed, Rejected>(abc));
        } else {
            let ab = join(op1, pa, pb);
            let abc = join(op2, ab, pc);
            assert(factor_rest(tokens, 2, pb) == Ok::<Parsed, Rejected>(pb));
            assert(factor(tokens, 2) == Ok::<Parsed, Rejected>(pb));
            assert(term_rest(tokens, 0, abc) == Ok::<Parsed, Rejected>(abc));
            assert(term_rest(tokens, 0, ab) == Ok::<Parsed, Rejected>(abc));
            assert(term_rest(tokens, 0, pa) == Ok::<Parsed, Rejected>(abc));
        }
    }
    assert(term(tokens, 0) == term_rest(tokens, 0, factor(tokens, 0)->Ok_0));
}

/// Division rounds towards zero: what is left over when the quotient is
/// taken away is smaller than the divisor and has the sign of the dividend.
pub proof fn lemma_quotient_truncates(l: int, r: int)
    requires
        r != 0,
    ensures
        ({
            let rest = l - quotient(l, r) * r;
            &&& l >= 0 ==> 0 <= rest
            &&& l <= 0 ==> rest <= 0
            &&& r > 0 ==> -r < rest < r
            &&& r < 0 ==> r < rest < -r
        }),
{
    let a = if l >= 0 { l } else { -l };
    let d = if r > 0 { r } else { -r };
    let q = a / d;
    assert(a == d * q + a % d && 0 <= a % d < d) by (nonlinear_arith)
        requires
            d > 0,
            q == a / d,
    ;
    assert(quotient(l, r) == if (l >= 0) == (r > 0) { q } else { -q });
    assert(q * r == if r > 0 { d * q } else { -(d * q) }) by (nonlinear_arith)
        requires
            d == (if r > 0 { r } else { -r }),
    ;
    assert((-q) * r == -(q * r)) by (nonlinear_arith);
}

/// The statement that returns what `name` holds: `return name;`.
pub open spec fn return_of(name: Seq<char>) -> Seq<char> {
    "return "@ + name + ";"@
}

/// The statement `return x;` evaluates to 0 for every identifier `x`: it is
/// the keyword, the identifier and the semicolon, these parse to a return of
/// that identifier, and an identifier reads as zero.
pub proof fn lemma_returned_identifier_is_zero(name: Seq<char>)
    requires
        name.len() >= 1,
        is_word_start(name[0]),
        forall|i: int| 0 <= i < name.len() ==> is_word_part(#[trigger] name[i]),
        !is_keyword(name),
    ensures
        LexerView::start(return_of(name)).tokens() == seq![
            TokenView::Keyword("return"@, PositionView { line: 1, column: 0 }),
            TokenView::Identifier(name, PositionView { line: 1, column: 7 }),
            TokenView::Symbol(';', PositionView { line: 1, column: 7 + name.len() }),
        ],
        return_statement(LexerView::start(return_of(name)).tokens(), 0) == Ok::<Parsed, Rejected>(
            Parsed { node: NodeView::Return(Box::new(NodeView::Identifier(name))), len: 3 },
        ),
        NodeView::Return(Box::new(NodeView::Identifier(name))).value() == Ok::<i32, EvalError>(0),
{
    reveal_strlit("return ");
    reveal_strlit("return");
    reveal_strlit(";");
    let text = return_of(name);
    let len = name.len() as int;
    let s0 = LexerView::start(text);
    assert(text.len() == 8 + len);
    assert(forall|i: int| 0 <= i < 7 ==> text[i] == "return "@[i]);
    assert(forall|i: int| 0 <= i < len ==> text[7 + i] == name[i]);
    assert(text[7 + len] == ';');

    // the keyword
    lemma_next_is_word(s0, 0, 6);
    lemma_advance_none(s0);
    assert(text.subrange(0, 6) =~= "return"@);
    let t1 = TokenView::Keyword("return"@, PositionView { line: 1, column: 0 });
    let s1 = s0.advance(6);
    lemma_position_on_line(s0.position, text.take(6));
    assert(s0.next_token() == (t1, s1));
    assert(s1.position == PositionView { line: 1, column: 6 });
    assert(s1.rest =~= text.skip(6));

    // the identifier
    assert(s1.rest[0] == text[6]);
    assert forall|i: int| 1 <= i < 1 + len implies is_word_part(#[trigger] s1.rest[i]) by {
        assert(s1.rest[i] == name[i - 1]);
    }
    assert(s1.rest[1] == name[0]);
    assert(s1.rest[1 + len] == ';');
    lemma_next_is_word(s1, 1, len as nat);
    assert(s1.rest.subrange(1, 1 + len) =~= name);
    lemma_position_on_line(s1.position, s1.rest.take(1));
    let t2 = TokenView::Identifier(name, PositionView { line: 1, column: 7 });
    let s2 = s1.advance((1 + len) as nat);
    lemma_position_on_line(s1.position, s1.rest.take(1 + len));
    assert(s1.next_token() == (t2, s2));
    assert(s2.position == PositionView { line: 1, column: (7 + len) as nat });
    assert(s2.rest =~= seq![';']);

    // the semicolon
    lemma_next_is_symbol(s2, 0);
    lemma_advance_none(s2);
    let t3 = TokenView::Symbol(';', PositionView { line: 1, column: (7 + len) as nat });
    let s3 = s2.advance(1);
    assert(s2.next_token() == (t3, s3));
    assert(s3.rest.len() == 0);

    // the end
    lemma_next_is_end(s3);
    assert(s3.tokens() =~= Seq::<TokenView>::empty());
    assert(s2.tokens() =~= seq![t3]);
    assert(s1.tokens() =~= seq![t2, t3]);
    assert(s0.tokens() =~= seq![t1, t2, t3]);

    // the value
    assert(NodeView::Identifier(name).value() == Ok::<i32, EvalError>(0));
}

} // verus!
