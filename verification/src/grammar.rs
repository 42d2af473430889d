use vstd::prelude::*;
use crate::ast::{NodeView, Operator};
use crate::error::{Expected, ParseErrorView};
use crate::token::TokenView;

verus! {

/// A successful parse: the tree, and how many tokens it spans.
pub struct Parsed {
    pub node: NodeView,
    pub len: nat,
}

/// A failed parse: what was expected, and the index of the offending token.
pub struct Rejected {
    pub expected: Expected,
    pub at: nat,
}

impl Rejected {
    /// The error that reports this failure on `tokens`.
    pub open spec fn error(self, tokens: Seq<TokenView>) -> ParseErrorView {
        ParseErrorView { expected: self.expected, found: token_at(tokens, self.at) }
    }
}

/// The token under index `at`; past the last token the input has ended.
pub open spec fn token_at(tokens: Seq<TokenView>, at: nat) -> TokenView {
    if at < tokens.len() {
        tokens[at as int]
    } else {
        TokenView::Eof
    }
}

/// How many tokens stand at index `at` and after it.
pub open spec fn remaining(tokens: Seq<TokenView>, at: nat) -> nat {
    if at <= tokens.len() {
        (tokens.len() - at) as nat
    } else {
        0
    }
}

/// Whether the token under `at` is the symbol `c`.
pub open spec fn symbol_at(tokens: Seq<TokenView>, at: nat, c: char) -> bool {
    token_at(tokens, at) matches TokenView::Symbol(s, _) && s == c
}

/// The operator that the token under `at` spells, if it spells one.
pub open spec fn operator_at(tokens: Seq<TokenView>, at: nat) -> Option<Operator> {
    match token_at(tokens, at) {
        TokenView::Symbol(c, _) => Operator::spec_from_symbol(c),
        _ => None,
    }
}

/// Whether the token under `at` is the keyword `return`.
pub open spec fn return_at(tokens: Seq<TokenView>, at: nat) -> bool {
    token_at(tokens, at) matches TokenView::Keyword(text, _) && text == "return"@
}

/// `expression := term`
pub open spec fn expression(tokens: Seq<TokenView>, from: nat) -> Result<Parsed, Rejected>
    decreases remaining(tokens, from), 3nat,
{
    term(tokens, from)
}

/// `term := factor (('+' | '-') factor)*`, grouping to the left.
pub open spec fn term(tokens: Seq<TokenView>, from: nat) -> Result<Parsed, Rejected>
    decreases remaining(tokens, from), 2nat,
{
    match factor(tokens, from) {
        Ok(first) => term_rest(tokens, from, first),
        Err(rejected) => Err(rejected),
    }
}

/// The `(('+' | '-') factor)*` that follows `left`, which spans the tokens
/// from `from` on.
pub open spec fn term_rest(tokens: Seq<TokenView>, from: nat, left: Parsed) -> Result<
    Parsed,
    Rejected,
>
    decreases remaining(tokens, from + left.len), 1nat,
{
    let at = from + left.len;
    match operator_at(tokens, at) {
        Some(op) if op.is_additive() => match factor(tokens, at + 1) {
            Ok(right) => term_rest(tokens, from, join(op, left, right)),
            Err(rejected) => Err(rejected),
        },
        _ => Ok(left),
    }
}

/// `factor := primary (('*' | '/') primary)*`, grouping to the left.
pub open spec fn factor(tokens: Seq<TokenView>, from: nat) -> Result<Parsed, Rejected>
    decreases remaining(tokens, from), 1nat,
{
    match primary(tokens, from) {
        Ok(first) => factor_rest(tokens, from, first),
        Err(rejected) => Err(rejected),
    }
}

/// The `(('*' | '/') primary)*` that follows `left`, which spans the tokens
/// from `from` on.
pub open spec fn factor_rest(tokens: Seq<TokenView>, from: nat, left: Parsed) -> Result<
    Parsed,
    Rejected,
>
    decreases remaining(tokens, from + left.len), 0nat,
{
    let at = from + left.len;
    match operator_at(tokens, at) {
        Some(op) if op.is_multiplicative() => match primary(tokens, at + 1) {
            Ok(right) => factor_rest(tokens, from, join(op, left, right)),
            Err(rejected) => Err(rejected),
        },
        _ => Ok(left),
    }
}

/// `left op right`, spanning both operands and the operator between them.
pub open spec fn join(op: Operator, left: Parsed, right: Parsed) -> Parsed {
    Parsed {
        node: NodeView::BinaryOp { op, left: Box::new(left.node), right: Box::new(right.node) },
        len: left.len + 1 + right.len,
    }
}

/// `primary := NUMBER | IDENTIFIER ('=' expression)? | '(' expression ')'`
pub open spec fn primary(tokens: Seq<TokenView>, from: nat) -> Result<Parsed, Rejected>
    decreases remaining(tokens, from), 0nat,
{
    match token_at(tokens, from) {
        TokenView::Number(value, _) => Ok(Parsed { node: NodeView::Number(value), len: 1 }),
        TokenView::Identifier(name, _) => if symbol_at(tokens, from + 1, '=') {
            match expression(tokens, from + 2) {
                Ok(value) => Ok(
                    Parsed {
                        node: NodeView::Assignment(name, Box::new(value.node)),
                        len: 2 + value.len,
                    },
                ),
                Err(rejected) => Err(rejected),
            }
        } else {
            Ok(Parsed { node: NodeView::Identifier(name), len: 1 })
        },
        TokenView::Symbol(c, _) if c == '(' => match expression(tokens, from + 1) {
            Ok(inner) => closed_by(tokens, from, inner.node, 1 + inner.len, ')'),
            Err(rejected) => Err(rejected),
        },
        _ => Err(Rejected { expected: Expected::Expression, at: from }),
    }
}

/// `node`, which spans `len` tokens from `from` on, followed by the symbol `c`.
pub open spec fn closed_by(tokens: Seq<TokenView>, from: nat, node: NodeView, len: nat, c: char)
    -> Result<Parsed, Rejected> {
    if symbol_at(tokens, from + len, c) {
        Ok(Parsed { node, len: len + 1 })
    } else {
        Err(Rejected { expected: Expected::Symbol(c), at: from + len })
    }
}

/// `return_stmt := 'return' expression ';'`
pub open spec fn return_statement(tokens: Seq<TokenView>, from: nat) -> Result<Parsed, Rejected> {
    if return_at(tokens, from) {
        match expression(tokens, from + 1) {
            Ok(value) => closed_by(
                tokens,
                from,
                NodeView::Return(Box::new(value.node)),
                1 + value.len,
                ';',
            ),
            Err(rejected) => Err(rejected),
        }
    } else {
        Err(Rejected { expected: Expected::Return, at: from })
    }
}

/// Whether `name` is the text of an identifier among `tokens`.
pub open spec fn is_identifier_of(tokens: Seq<TokenView>, name: Seq<char>) -> bool {
    exists|i: int|
        0 <= i < tokens.len() && #[trigger] tokens[i] is Identifier && tokens[i]->Identifier_0
            == name
}

/// Whether every name in `node` is the text of an identifier among `tokens`.
pub open spec fn names_from(node: NodeView, tokens: Seq<TokenView>) -> bool
    decreases node,
{
    match node {
        NodeView::Number(_) => true,
        NodeView::Identifier(name) => is_identifier_of(tokens, name),
        NodeView::Assignment(name, value) => is_identifier_of(tokens, name) && names_from(
            *value,
            tokens,
        ),
        NodeView::BinaryOp { op, left, right } => names_from(*left, tokens) && names_from(
            *right,
            tokens,
        ),
        NodeView::Return(value) => names_from(*value, tokens),
    }
}

/// Whether a tree that spans tokens from `from` on keeps within `tokens`:
/// it spans one token or more, none past the last, and has its names from
/// the identifiers among them.
pub open spec fn fits(tokens: Seq<TokenView>, from: nat, parsed: Parsed) -> bool {
    &&& parsed.len >= 1
    &&& from + parsed.len <= tokens.len()
    &&& names_from(parsed.node, tokens)
}

/// Whether what a rule gave from `from` on keeps within `tokens`: a tree
/// fits; a failure names a token that lies at `from` or after it, the end of
/// the input at the latest.
pub open spec fn sound(tokens: Seq<TokenView>, from: nat, outcome: Result<Parsed, Rejected>)
    -> bool {
    match outcome {
        Ok(parsed) => fits(tokens, from, parsed),
        Err(rejected) => from <= rejected.at <= tokens.len(),
    }
}

/// What `expression` gives keeps within the tokens.
pub proof fn lemma_expression_sound(tokens: Seq<TokenView>, from: nat)
    requires
        from <= tokens.len(),
    ensures
        sound(tokens, from, expression(tokens, from)),
    decreases remaining(tokens, from), 3nat,
{
    lemma_term_sound(tokens, from);
}

/// What `term` gives keeps within the tokens.
pub proof fn lemma_term_sound(tokens: Seq<TokenView>, from: nat)
    requires
        from <= tokens.len(),
    ensures
        sound(tokens, from, term(tokens, from)),
    decreases remaining(tokens, from), 2nat,
{
    lemma_factor_sound(tokens, from);
    if let Ok(first) = factor(tokens, from) {
        lemma_term_rest_sound(tokens, from, first);
    }
}

/// What `term_rest` makes of a tree that fits keeps within the tokens.
pub proof fn lemma_term_rest_sound(tokens: Seq<TokenView>, from: nat, left: Parsed)
    requires
        fits(tokens, from, left),
    ensures
        sound(tokens, from, term_rest(tokens, from, left)),
    decreases remaining(tokens, from + left.len), 1nat,
{
    let at = from + left.len;
    if let Some(op) = operator_at(tokens, at) {
        if op.is_additive() {
            lemma_factor_sound(tokens, at + 1);
            if let Ok(right) = factor(tokens, at + 1) {
                lemma_term_rest_sound(tokens, from, join(op, left, right));
            }
        }
    }
}

/// What `factor` gives keeps within the tokens.
pub proof fn lemma_factor_sound(tokens: Seq<TokenView>, from: nat)
    requires
        from <= tokens.len(),
    ensures
        sound(tokens, from, factor(tokens, from)),
    decreases remaining(tokens, from), 1nat,
{
    lemma_primary_sound(tokens, from);
    if let Ok(first) = primary(tokens, from) {
        lemma_factor_rest_sound(tokens, from, first);
    }
}

/// What `factor_rest` makes of a tree that fits keeps within the tokens.
pub proof fn lemma_factor_rest_sound(tokens: Seq<TokenView>, from: nat, left: Parsed)
    requires
        fits(tokens, from, left),
    ensures
        sound(tokens, from, factor_rest(tokens, from, left)),
    decreases remaining(tokens, from + left.len), 0nat,
{
    let at = from + left.len;
    if let Some(op) = operator_at(tokens, at) {
        if op.is_multiplicative() {
            lemma_primary_sound(tokens, at + 1);
            if let Ok(right) = primary(tokens, at + 1) {
                lemma_factor_rest_sound(tokens, from, join(op, left, right));
            }
        }
    }
}

/// What `primary` gives keeps within the tokens.
pub proof fn lemma_primary_sound(tokens: Seq<TokenView>, from: nat)
    requires
        from <= tokens.len(),
    ensures
        sound(tokens, from, primary(tokens, from)),
    decreases remaining(tokens, from), 0nat,
{
    match token_at(tokens, from) {
        TokenView::Identifier(name, _) => {
            assert(tokens[from as int] is Identifier);
            if symbol_at(tokens, from + 1, '=') {
                lemma_expression_sound(tokens, from + 2);
            }
        },
        TokenView::Symbol(c, _) => {
            if c == '(' {
                lemma_expression_sound(tokens, from + 1);
            }
        },
        _ => {},
    }
}

/// What `return_statement` gives keeps within the tokens, and a tree that
/// it gives has a return at its root.
pub proof fn lemma_return_statement_sound(tokens: Seq<TokenView>, from: nat)
    requires
        from <= tokens.len(),
    ensures
        sound(tokens, from, return_statement(tokens, from)),
        return_statement(tokens, from) matches Ok(parsed) ==> parsed.node is Return,
{
    if return_at(tokens, from) {
        lemma_expression_sound(tokens, from + 1);
    }
}

} // verus!
