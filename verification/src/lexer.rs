//! Tokens: how the characters of a source text group into words, numbers
//! and punctuation.

use vstd::prelude::*;
use crate::value::{decimal, digit_char, digits};

verus! {

/// Blank, tab, line feed or carriage return.
pub open spec fn is_space(c: char) -> bool {
    c == ' ' || c == '\t' || c == '\n' || c == '\r'
}

/// A decimal digit.
pub open spec fn is_digit(c: char) -> bool {
    '0' <= c && c <= '9'
}

/// A character that can begin a word: an ASCII letter or an underscore.
pub open spec fn is_word_start(c: char) -> bool {
    ('a' <= c && c <= 'z') || ('A' <= c && c <= 'Z') || c == '_'
}

/// A character that can continue a word: one that can begin it, or a digit.
pub open spec fn is_word_char(c: char) -> bool {
    is_word_start(c) || is_digit(c)
}

/// The kinds of character that come in runs.
#[derive(Debug, Clone, Copy, PartialEq, Eq, Structural)]
pub enum CharClass {
    Space,
    Digit,
    Word,
}

/// Whether `c` belongs to `class`.
pub open spec fn in_class(c: char, class: CharClass) -> bool {
    match class {
        CharClass::Space => is_space(c),
        CharClass::Digit => is_digit(c),
        CharClass::Word => is_word_char(c),
    }
}

/// Where the run of characters of `class` that starts at `from` ends: the
/// first index at or after `from` that holds no character of the class.
pub open spec fn run_end(s: Seq<char>, from: int, class: CharClass) -> int
    decreases s.len() - from,
{
    if 0 <= from < s.len() && in_class(s[from], class) {
        run_end(s, from + 1, class)
    } else {
        from
    }
}

/// A run lies within the text, holds only characters of its class, and is
/// followed by none.
pub proof fn lemma_run_end(s: Seq<char>, from: int, class: CharClass)
    requires
        0 <= from <= s.len(),
    ensures
        from <= run_end(s, from, class) <= s.len(),
        forall|i: int| from <= i < run_end(s, from, class) ==> in_class(#[trigger] s[i], class),
        run_end(s, from, class) < s.len() ==> !in_class(s[run_end(s, from, class)], class),
    decreases s.len() - from,
{
    if from < s.len() && in_class(s[from], class) {
        lemma_run_end(s, from + 1, class);
    }
}

/// A stretch of characters of one class, with no character of the class
/// after it, is the run that starts where the stretch starts.
pub proof fn lemma_run_end_is(s: Seq<char>, from: int, to: int, class: CharClass)
    requires
        0 <= from <= to <= s.len(),
        forall|i: int| from <= i < to ==> in_class(#[trigger] s[i], class),
        to < s.len() ==> !in_class(s[to], class),
    ensures
        run_end(s, from, class) == to,
    decreases to - from,
{
    if from < to {
        lemma_run_end_is(s, from + 1, to, class);
    }
}

/// What a token is.
#[derive(Debug, Clone, Copy, PartialEq, Eq, Structural)]
pub enum TokenKind {
    /// Nothing but white space is left.
    End,
    /// A letter or underscore, then letters, digits and underscores.
    Word,
    /// Decimal digits, with or without a minus sign before them.
    Number,
    /// `=`
    Equals,
    /// `|`
    Bar,
    /// `[`
    Open,
    /// `]`
    Close,
    /// Characters that form no token.
    Malformed,
}

/// A token and the characters it covers, `start` included and `end` not.
#[derive(Debug, Clone, Copy, PartialEq, Eq)]
pub struct Token {
    pub kind: TokenKind,
    pub start: usize,
    pub end: usize,
}

/// What a [`Token`] is to a contract.
pub ghost struct TokenView {
    pub kind: TokenKind,
    pub start: int,
    pub end: int,
}

impl View for Token {
    type V = TokenView;

    open spec fn view(&self) -> TokenView {
        TokenView { kind: self.kind, start: self.start as int, end: self.end as int }
    }
}

/// The token that a punctuation character is, or `Malformed`.
pub open spec fn punctuation(c: char) -> TokenKind {
    if c == '=' {
        TokenKind::Equals
    } else if c == '|' {
        TokenKind::Bar
    } else if c == '[' {
        TokenKind::Open
    } else if c == ']' {
        TokenKind::Close
    } else {
        TokenKind::Malformed
    }
}

/// The first token of `s` at or after `from`.
///
/// White space before a token is skipped. A word is as long as it can be. A
/// number is a minus sign or none, then digits as many as there are; with no
/// digit, or with a word character right after the digits, it is malformed,
/// and the malformed token reaches as far as the word characters do. Any
/// other character is one token of punctuation, or malformed.
pub open spec fn token_at(s: Seq<char>, from: int) -> TokenView {
    let start = run_end(s, from, CharClass::Space);
    if !(0 <= start < s.len()) {
        TokenView { kind: TokenKind::End, start, end: start }
    } else if is_word_start(s[start]) {
        TokenView { kind: TokenKind::Word, start, end: run_end(s, start + 1, CharClass::Word) }
    } else if is_digit(s[start]) || s[start] == '-' {
        let first_digit = if s[start] == '-' {
            start + 1
        } else {
            start
        };
        let end = run_end(s, first_digit, CharClass::Digit);
        if end == first_digit || (end < s.len() && is_word_char(s[end])) {
            TokenView { kind: TokenKind::Malformed, start, end: run_end(s, end, CharClass::Word) }
        } else {
            TokenView { kind: TokenKind::Number, start, end }
        }
    } else {
        TokenView { kind: punctuation(s[start]), start, end: start + 1 }
    }
}

/// A token lies within the text at or after the place it was looked for,
/// and every token but `End` covers at least one character.
pub proof fn lemma_token_bounds(s: Seq<char>, from: int)
    ensures
        token_at(s, from).kind != TokenKind::End ==> 0 <= from <= token_at(s, from).start
            < token_at(s, from).end <= s.len(),
        0 <= from <= s.len() ==> from <= token_at(s, from).start <= token_at(s, from).end
            <= s.len(),
{
    if 0 <= from <= s.len() {
        lemma_run_end(s, from, CharClass::Space);
        let start = run_end(s, from, CharClass::Space);
        if start < s.len() {
            lemma_run_end(s, start + 1, CharClass::Word);
            lemma_run_end(s, start + 1, CharClass::Digit);
            lemma_run_end(s, start, CharClass::Digit);
            lemma_run_end(s, run_end(s, start + 1, CharClass::Digit), CharClass::Word);
            lemma_run_end(s, run_end(s, start, CharClass::Digit), CharClass::Word);
        }
    }
}

/// The number that a digit stands for.
pub open spec fn digit_value(c: char) -> int {
    c as int - 48
}

/// The number that a run of digits stands for, in base ten.
pub open spec fn digits_value(digits: Seq<char>) -> int
    decreases digits.len(),
{
    if digits.len() == 0 {
        0
    } else {
        10 * digits_value(digits.drop_last()) + digit_value(digits.last())
    }
}

/// The number that the text of a number token stands for.
pub open spec fn number_value(text: Seq<char>) -> int {
    if text.len() > 0 && text[0] == '-' {
        -digits_value(text.skip(1))
    } else {
        digits_value(text)
    }
}

/// Whether every character of `text` is a digit.
pub open spec fn all_digits(text: Seq<char>) -> bool {
    forall|i: int| 0 <= i < text.len() ==> is_digit(#[trigger] text[i])
}

/// A run of digits stands for no less than any run that it begins with, and
/// for no negative number.
pub proof fn lemma_digits_value_grows(digits: Seq<char>, shorter: int)
    requires
        all_digits(digits),
        0 <= shorter <= digits.len(),
    ensures
        0 <= digits_value(digits.take(shorter)) <= digits_value(digits),
    decreases digits.len() - shorter,
{
    if shorter == digits.len() {
        assert(digits.take(shorter) =~= digits);
        lemma_digits_value_nonnegative(digits);
    } else {
        lemma_digits_value_grows(digits, shorter + 1);
        let longer = digits.take(shorter + 1);
        assert(longer.drop_last() =~= digits.take(shorter));
        assert(is_digit(digits[shorter]));
        assert(longer.last() == digits[shorter]);
        lemma_digits_value_nonnegative(digits.take(shorter));
    }
}

/// A run of digits stands for no negative number.
pub proof fn lemma_digits_value_nonnegative(digits: Seq<char>)
    requires
        all_digits(digits),
    ensures
        0 <= digits_value(digits),
    decreases digits.len(),
{
    if digits.len() > 0 {
        assert(is_digit(digits[digits.len() - 1]));
        lemma_digits_value_nonnegative(digits.drop_last());
    }
}

/// Whether `text` is written as a number: digits, at least one, with or
/// without a minus sign before them.
pub open spec fn is_number_text(text: Seq<char>) -> bool {
    if text.len() > 0 && text[0] == '-' {
        text.len() > 1 && all_digits(text.skip(1))
    } else {
        text.len() > 0 && all_digits(text)
    }
}

/// The digits of a number are digits, and stand for that number.
pub proof fn lemma_digits_round_trip(n: nat)
    ensures
        digits(n).len() >= 1,
        all_digits(digits(n)),
        digits_value(digits(n)) == n,
    decreases n,
{
    if n < 10 {
        let text = digits(n);
        assert(text.drop_last() =~= Seq::<char>::empty());
        assert(digits_value(text.drop_last()) == 0);
        assert(is_digit(text[0]));
        assert(digit_value(text.last()) == n);
    } else {
        lemma_digits_round_trip(n / 10);
        let front = digits(n / 10);
        let text = digits(n);
        assert(text.drop_last() =~= front);
        assert(text.last() == digit_char((n % 10) as int));
        assert(is_digit(text.last()));
        assert forall|i: int| 0 <= i < text.len() implies is_digit(#[trigger] text[i]) by {
            if i < front.len() {
                assert(text[i] == front[i]);
            }
        }
    }
}

/// The decimal text of a number is written as a number, and stands for it.
pub proof fn lemma_decimal_round_trip(n: int)
    ensures
        is_number_text(decimal(n)),
        number_value(decimal(n)) == n,
{
    if n < 0 {
        lemma_digits_round_trip((-n) as nat);
        assert(decimal(n).skip(1) =~= digits((-n) as nat));
        assert(decimal(n)[0] == '-');
    } else {
        lemma_digits_round_trip(n as nat);
        assert(is_digit(decimal(n)[0]));
    }
}

/// A source text, held so that its characters can be read by index.
pub struct Source<'a> {
    text: &'a str,
    chars: Vec<char>,
    ascii: bool,
}

impl<'a> View for Source<'a> {
    type V = Seq<char>;

    closed spec fn view(&self) -> Seq<char> {
        self.text@
    }
}

impl<'a> Source<'a> {
    #[verifier::type_invariant]
    spec fn agrees(&self) -> bool {
        &&& self.chars@ == self.text@
        &&& self.ascii == self.text.is_ascii()
    }

    /// Prepares `text` for reading.
    pub fn new(text: &'a str) -> (source: Source<'a>)
        ensures
            source@ == text@,
    {
        let mut chars: Vec<char> = Vec::new();
        for c in it: text.chars()
            invariant
                chars@ == it.seq().take(it.index()),
        {
            chars.push(c);
        }
        assert(chars@ =~= text@);
        Source { text, chars, ascii: text.is_ascii() }
    }

    /// The number of characters.
    pub fn len(&self) -> (len: usize)
        ensures
            len == self@.len(),
    {
        proof {
            use_type_invariant(self);
        }
        self.chars.len()
    }

    /// The character at index `i`.
    pub(crate) fn char_at(&self, i: usize) -> (c: char)
        requires
            i < self@.len(),
        ensures
            c == self@[i as int],
    {
        proof {
            use_type_invariant(self);
        }
        self.chars[i]
    }

    /// The characters from `from` up to `to`, as a string.
    pub(crate) fn slice(&self, from: usize, to: usize) -> (text: String)
        requires
            from <= to <= self@.len(),
        ensures
            text@ == self@.subrange(from as int, to as int),
    {
        proof {
            use_type_invariant(self);
        }
        if self.ascii {
            self.text.substring_ascii(from, to).to_owned()
        } else {
            self.text.substring_char(from, to).to_owned()
        }
    }

    /// Where the run of characters of `class` that starts at `from` ends.
    pub fn scan(&self, from: usize, class: CharClass) -> (end: usize)
        ensures
            end == run_end(self@, from as int, class),
            from <= end,
            from <= self@.len() ==> end <= self@.len(),
    {
        proof {
            use_type_invariant(self);
        }
        let mut end = from;
        while end < self.chars.len() && belongs(self.chars[end], class)
            invariant
                self.chars@ == self@,
                from <= end,
                from <= self@.len() ==> end <= self@.len(),
                run_end(self@, from as int, class) == run_end(self@, end as int, class),
            decreases self@.len() - end,
        {
            end += 1;
        }
        end
    }

    /// The first token at or after `from`: see [`token_at`].
    pub fn token(&self, from: usize) -> (token: Token)
        ensures
            token@ == token_at(self@, from as int),
            from <= token.start <= token.end,
            from <= self@.len() ==> token.end <= self@.len(),
            token.kind != TokenKind::End ==> token.start < token.end <= self@.len(),
    {
        proof {
            lemma_token_bounds(self@, from as int);
        }
        let start = self.scan(from, CharClass::Space);
        if start >= self.len() {
            return Token { kind: TokenKind::End, start, end: start };
        }
        let c = self.char_at(start);
        if word_start(c) {
            let end = self.scan(start + 1, CharClass::Word);
            Token { kind: TokenKind::Word, start, end }
        } else if digit(c) || c == '-' {
            let first_digit = if c == '-' {
                start + 1
            } else {
                start
            };
            let end = self.scan(first_digit, CharClass::Digit);
            if end == first_digit || (end < self.len() && belongs(
                self.char_at(end),
                CharClass::Word,
            )) {
                Token { kind: TokenKind::Malformed, start, end: self.scan(end, CharClass::Word) }
            } else {
                Token { kind: TokenKind::Number, start, end }
            }
        } else {
            let kind = if c == '=' {
                TokenKind::Equals
            } else if c == '|' {
                TokenKind::Bar
            } else if c == '[' {
                TokenKind::Open
            } else if c == ']' {
                TokenKind::Close
            } else {
                TokenKind::Malformed
            };
            Token { kind, start, end: start + 1 }
        }
    }
}

fn digit(c: char) -> (yes: bool)
    ensures
        yes == is_digit(c),
{
    c >= '0' && c <= '9'
}

fn word_start(c: char) -> (yes: bool)
    ensures
        yes == is_word_start(c),
{
    (c >= 'a' && c <= 'z') || (c >= 'A' && c <= 'Z') || c == '_'
}

fn belongs(c: char, class: CharClass) -> (yes: bool)
    ensures
        yes == in_class(c, class),
{
    match class {
        CharClass::Space => c == ' ' || c == '\t' || c == '\n' || c == '\r',
        CharClass::Digit => digit(c),
        CharClass::Word => word_start(c) || digit(c),
    }
}

} // verus!
