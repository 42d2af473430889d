use vstd::prelude::*;

verus! {

/// An ASCII decimal digit, `'0'` to `'9'`.
pub open spec fn is_digit(c: char) -> bool {
    '0' <= c <= '9'
}

/// An ASCII letter or the underscore: what an identifier starts with.
pub open spec fn is_word_start(c: char) -> bool {
    ('a' <= c <= 'z') || ('A' <= c <= 'Z') || c == '_'
}

/// An ASCII letter, an ASCII digit or the underscore: what an identifier
/// goes on with.
pub open spec fn is_word_part(c: char) -> bool {
    is_word_start(c) || is_digit(c)
}

/// A character that Unicode counts as whitespace (`White_Space`).
pub open spec fn is_whitespace(c: char) -> bool {
    ||| '\u{0009}' <= c <= '\u{000D}'
    ||| c == '\u{0020}'
    ||| c == '\u{0085}'
    ||| c == '\u{00A0}'
    ||| c == '\u{1680}'
    ||| '\u{2000}' <= c <= '\u{200A}'
    ||| c == '\u{2028}'
    ||| c == '\u{2029}'
    ||| c == '\u{202F}'
    ||| c == '\u{205F}'
    ||| c == '\u{3000}'
}

/// The number that a decimal digit stands for.
pub open spec fn digit_value(c: char) -> nat
    recommends
        is_digit(c),
{
    (c as u32 - '0' as u32) as nat
}

/// The classes of characters that the tokenizer reads in runs.
pub enum CharClass {
    Whitespace,
    Digit,
    Word,
}

impl CharClass {
    /// Whether `c` belongs to the class.
    pub open spec fn contains(self, c: char) -> bool {
        match self {
            CharClass::Whitespace => is_whitespace(c),
            CharClass::Digit => is_digit(c),
            CharClass::Word => is_word_part(c),
        }
    }
}

/// How many characters at the start of `text` belong to `class`: the length
/// of the longest prefix made of them.
pub open spec fn leading(text: Seq<char>, class: CharClass) -> nat
    decreases text.len(),
{
    if text.len() > 0 && class.contains(text[0]) {
        1 + leading(text.skip(1), class)
    } else {
        0
    }
}

/// A prefix of `n` characters of `class` that ends the text, or that a
/// character outside the class follows, is the longest one.
pub proof fn lemma_leading_is(text: Seq<char>, class: CharClass, n: nat)
    requires
        n <= text.len(),
        forall|i: int| 0 <= i < n ==> class.contains(#[trigger] text[i]),
        n == text.len() || !class.contains(text[n as int]),
    ensures
        leading(text, class) == n,
    decreases n,
{
    if n > 0 {
        let rest = text.skip(1);
        assert forall|i: int| 0 <= i < n - 1 implies class.contains(#[trigger] rest[i]) by {
            assert(rest[i] == text[i + 1]);
        }
        lemma_leading_is(rest, class, (n - 1) as nat);
    }
}

/// The longest prefix of `class` lies within the text, is made of the class,
/// and is followed by no further character of it.
pub proof fn lemma_leading_bounds(text: Seq<char>, class: CharClass)
    ensures
        leading(text, class) <= text.len(),
        forall|i: int| 0 <= i < leading(text, class) ==> class.contains(#[trigger] text[i]),
        leading(text, class) < text.len() ==> !class.contains(text[leading(text, class) as int]),
    decreases text.len(),
{
    if text.len() > 0 && class.contains(text[0]) {
        let rest = text.skip(1);
        lemma_leading_bounds(rest, class);
        assert forall|i: int| 0 <= i < leading(text, class) implies class.contains(
            #[trigger] text[i],
        ) by {
            if i > 0 {
                assert(text[i] == rest[i - 1]);
            }
        }
        if leading(text, class) < text.len() {
            assert(text[leading(text, class) as int] == rest[leading(rest, class) as int]);
        }
    }
}

/// Whether `c` is an ASCII decimal digit.
pub fn is_ascii_digit(c: char) -> (b: bool)
    ensures
        b == is_digit(c),
{
    '0' <= c && c <= '9'
}

/// Whether an identifier can start with `c`.
pub fn starts_word(c: char) -> (b: bool)
    ensures
        b == is_word_start(c),
{
    ('a' <= c && c <= 'z') || ('A' <= c && c <= 'Z') || c == '_'
}

/// Whether an identifier can go on with `c`.
pub fn continues_word(c: char) -> (b: bool)
    ensures
        b == is_word_part(c),
{
    starts_word(c) || is_ascii_digit(c)
}

/// Whether `c` is whitespace.
pub fn is_space(c: char) -> (b: bool)
    ensures
        b == is_whitespace(c),
{
    ('\u{0009}' <= c && c <= '\u{000D}') || c == '\u{0020}' || c == '\u{0085}' || c == '\u{00A0}'
        || c == '\u{1680}' || ('\u{2000}' <= c && c <= '\u{200A}') || c == '\u{2028}' || c
        == '\u{2029}' || c == '\u{202F}' || c == '\u{205F}' || c == '\u{3000}'
}

/// The value of a decimal digit; `None` for any other character.
pub fn to_digit(c: char) -> (d: Option<i32>)
    ensures
        d == (if is_digit(c) {
            Some(digit_value(c) as i32)
        } else {
            None
        }),
{
    if is_ascii_digit(c) {
        Some((c as u32 - '0' as u32) as i32)
    } else {
        None
    }
}

} // verus!
