//! The text of a program, and the proof that the grammar reads it back.
//!
//! Every program has a text in a plain layout, one statement to a line. The
//! law at the end of this file says that this text, read as the grammar
//! says, is the program again.

use vstd::prelude::*;
use crate::grammar::{
    assign_stmt_at, decl_stmt_at, expected_at, expr_at, expr_stmt_at, ident_at, keyword_at,
    keyword_of, lemma_number_at_advances, lemma_numbers_after_bounds, lemma_stmt_at_advances,
    literal_at, number_at, numbers_after, print_stmt_at, program, stmt_at, stmts_from, text_of,
    Keyword, SyntaxError,
};
use crate::ir::{ExprView, LiteralView, StmtView};
use crate::lexer::{
    is_digit, is_number_text, is_space, is_word_char, is_word_start, lemma_decimal_round_trip,
    lemma_run_end, lemma_run_end_is, lemma_token_bounds, punctuation, token_at, CharClass,
    TokenKind, TokenView,
};
use crate::semantics::{literal_value, run, Env};
use crate::session::{response, Response};
use crate::value::{decimal, joined, rendered, separator};

verus! {

/// Whether `text` stands in `s` from index `at` on.
pub open spec fn occurs(s: Seq<char>, at: int, text: Seq<char>) -> bool {
    &&& 0 <= at
    &&& at + text.len() <= s.len()
    &&& s.subrange(at, at + text.len()) == text
}

/// Whether a word or a number that reaches up to `at` ends there: the text
/// ends, or the next character can continue neither.
pub open spec fn word_ends(s: Seq<char>, at: int) -> bool {
    at == s.len() || (0 <= at < s.len() && !is_word_char(s[at]))
}

/// Whether `word` is written as a word: it begins with a letter or an
/// underscore and goes on with letters, digits and underscores.
pub open spec fn is_word(word: Seq<char>) -> bool {
    &&& word.len() > 0
    &&& is_word_start(word[0])
    &&& forall|i: int| 0 <= i < word.len() ==> is_word_char(#[trigger] word[i])
}

/// The characters of a text that occurs are those of `s` at their places.
pub proof fn lemma_occurs_chars(s: Seq<char>, at: int, text: Seq<char>)
    requires
        occurs(s, at, text),
    ensures
        forall|i: int| 0 <= i < text.len() ==> s[at + i] == #[trigger] text[i],
        forall|i: int| at <= i < at + text.len() ==> #[trigger] s[i] == text[i - at],
{
    let part = s.subrange(at, at + text.len());
    assert forall|i: int| 0 <= i < text.len() implies s[at + i] == #[trigger] text[i] by {
        assert(part[i] == s[at + i]);
    }
    assert forall|i: int| at <= i < at + text.len() implies #[trigger] s[i] == text[i - at] by {
        assert(part[i - at] == s[i]);
    }
}

/// Where two texts occur one after the other, each of them occurs.
pub proof fn lemma_occurs_split(s: Seq<char>, at: int, first: Seq<char>, second: Seq<char>)
    requires
        occurs(s, at, first + second),
    ensures
        occurs(s, at, first),
        occurs(s, at + first.len(), second),
{
    lemma_occurs_chars(s, at, first + second);
    assert(s.subrange(at, at + first.len()) =~= first) by {
        assert forall|i: int| 0 <= i < first.len() implies s[at + i] == first[i] by {
            assert((first + second)[i] == first[i]);
        }
    }
    assert(s.subrange(at + first.len(), at + first.len() + second.len()) =~= second) by {
        assert forall|i: int| 0 <= i < second.len() implies s[at + first.len() + i] == second[i] by {
            assert((first + second)[first.len() + i] == second[i]);
        }
    }
}

/// White space before a token does not change the token.
pub proof fn lemma_token_after_space(s: Seq<char>, at: int)
    requires
        0 <= at < s.len(),
        is_space(s[at]),
    ensures
        token_at(s, at) == token_at(s, at + 1),
{
}

/// A word that occurs and ends is a token.
pub proof fn lemma_word_token(s: Seq<char>, at: int, word: Seq<char>)
    requires
        occurs(s, at, word),
        is_word(word),
        word_ends(s, at + word.len()),
    ensures
        token_at(s, at) == (TokenView { kind: TokenKind::Word, start: at, end: at + word.len() }),
        text_of(s, token_at(s, at)) == word,
{
    lemma_occurs_chars(s, at, word);
    assert(s[at] == word[0]);
    lemma_run_end_is(s, at, at, CharClass::Space);
    assert forall|i: int| at + 1 <= i < at + word.len() implies is_word_char(#[trigger] s[i]) by {
        assert(s[i] == word[i - at]);
    }
    lemma_run_end_is(s, at + 1, at + word.len(), CharClass::Word);
}

/// The text of a number that occurs and ends is a token.
pub proof fn lemma_number_text_token(s: Seq<char>, at: int, text: Seq<char>)
    requires
        occurs(s, at, text),
        is_number_text(text),
        word_ends(s, at + text.len()),
    ensures
        token_at(s, at) == (TokenView { kind: TokenKind::Number, start: at, end: at + text.len() }),
        text_of(s, token_at(s, at)) == text,
{
    lemma_occurs_chars(s, at, text);
    let end = at + text.len();
    assert(s[at] == text[0]);
    lemma_run_end_is(s, at, at, CharClass::Space);
    let first_digit: int = if text[0] == '-' {
        at + 1
    } else {
        at
    };
    assert forall|i: int| first_digit <= i < end implies is_digit(#[trigger] s[i]) by {
        assert(s[i] == text[i - at]);
        if text[0] == '-' {
            assert(text[i - at] == text.skip(1)[i - at - 1]);
        }
    }
    lemma_run_end_is(s, first_digit, end, CharClass::Digit);
}

/// A punctuation character is a token of its own.
pub proof fn lemma_punctuation_token(s: Seq<char>, at: int)
    requires
        0 <= at < s.len(),
        s[at] == '=' || s[at] == '|' || s[at] == '[' || s[at] == ']',
    ensures
        token_at(s, at) == (TokenView { kind: punctuation(s[at]), start: at, end: at + 1 }),
{
    lemma_run_end_is(s, at, at, CharClass::Space);
}

/// At the end of a text there is no token.
pub proof fn lemma_end_token(s: Seq<char>)
    ensures
        token_at(s, s.len() as int) == (TokenView {
            kind: TokenKind::End,
            start: s.len() as int,
            end: s.len() as int,
        }),
{
    lemma_run_end_is(s, s.len() as int, s.len() as int, CharClass::Space);
}

/// The decimal text of a 64-bit number that occurs and ends is read as that
/// number.
pub proof fn lemma_number_reads(s: Seq<char>, at: int, n: i64)
    requires
        occurs(s, at, decimal(n as int)),
        word_ends(s, at + decimal(n as int).len()),
    ensures
        number_at(s, at) == Ok::<(i64, int), SyntaxError>((n, at + decimal(n as int).len())),
{
    lemma_decimal_round_trip(n as int);
    lemma_number_text_token(s, at, decimal(n as int));
}

/// What stands between the numbers of a written array.
pub open spec fn bar_text() -> Seq<char> {
    seq![' ', '|', ' ']
}

/// The numbers of `items` from index `from` on, each after a bar.
pub open spec fn more_numbers_text(items: Seq<i64>, from: int) -> Seq<char>
    decreases items.len() - from,
{
    if 0 <= from < items.len() {
        bar_text() + decimal(items[from] as int) + more_numbers_text(items, from + 1)
    } else {
        Seq::empty()
    }
}

/// The text of a literal: a number in decimal, the numbers of an array with
/// bars between them, or a length in square brackets.
pub open spec fn literal_text(literal: LiteralView) -> Seq<char> {
    match literal {
        LiteralView::Number(n) => decimal(n as int),
        LiteralView::Array(items) => decimal(items[0] as int) + more_numbers_text(items, 1),
        LiteralView::ArrayByLength(n) => seq!['['] + decimal(n as int) + seq![']'],
    }
}

/// Whether a literal can be written: an array has two numbers or more, for
/// one number alone is a scalar.
pub open spec fn literal_written(literal: LiteralView) -> bool {
    literal matches LiteralView::Array(items) ==> items.len() >= 2
}

/// Whether a literal that reaches up to `at` ends there: its last number
/// ends, and no bar comes next.
pub open spec fn literal_ends(s: Seq<char>, at: int) -> bool {
    word_ends(s, at) && token_at(s, at).kind != TokenKind::Bar
}

/// The numbers after a bar are read back, one after the other.
pub proof fn lemma_more_numbers_read(s: Seq<char>, at: int, items: Seq<i64>, from: int)
    requires
        1 <= from <= items.len(),
        occurs(s, at, more_numbers_text(items, from)),
        literal_ends(s, at + more_numbers_text(items, from).len()),
    ensures
        numbers_after(s, at, items.take(from)) == Ok::<(Seq<i64>, int), SyntaxError>(
            (items, at + more_numbers_text(items, from).len()),
        ),
    decreases items.len() - from,
{
    if from == items.len() {
        assert(items.take(from) =~= items);
    } else {
        let number = decimal(items[from] as int);
        let rest = more_numbers_text(items, from + 1);
        assert(more_numbers_text(items, from) == bar_text() + number + rest);
        lemma_occurs_split(s, at, bar_text() + number, rest);
        lemma_occurs_split(s, at, bar_text(), number);
        lemma_occurs_chars(s, at, bar_text());
        assert(s[at] == bar_text()[0] && s[at + 1] == bar_text()[1] && s[at + 2] == bar_text()[2]);
        lemma_token_after_space(s, at);
        lemma_punctuation_token(s, at + 1);
        lemma_token_after_space(s, at + 2);
        let end = at + 3 + number.len();
        assert(word_ends(s, end)) by {
            if from + 1 < items.len() {
                let next = decimal(items[from + 1] as int);
                let after = more_numbers_text(items, from + 2);
                assert(rest == bar_text() + next + after);
                lemma_occurs_chars(s, end, rest);
                assert(rest[0] == ' ');
                assert(s[end] == rest[0]);
            } else {
                assert(rest.len() == 0);
            }
        }
        lemma_number_reads(s, at + 3, items[from]);
        assert(number_at(s, at + 2) == number_at(s, at + 3));
        assert(items.take(from).push(items[from]) =~= items.take(from + 1));
        lemma_more_numbers_read(s, end, items, from + 1);
    }
}

/// A written literal that occurs and ends is read back.
pub proof fn lemma_literal_reads(s: Seq<char>, at: int, literal: LiteralView)
    requires
        literal_written(literal),
        occurs(s, at, literal_text(literal)),
        literal_ends(s, at + literal_text(literal).len()),
    ensures
        literal_at(s, at) == Ok::<(LiteralView, int), SyntaxError>(
            (literal, at + literal_text(literal).len()),
        ),
{
    match literal {
        LiteralView::Number(n) => {
            lemma_number_reads(s, at, n);
            lemma_decimal_round_trip(n as int);
            lemma_number_text_token(s, at, decimal(n as int));
        },
        LiteralView::Array(items) => {
            let first = decimal(items[0] as int);
            let rest = more_numbers_text(items, 1);
            lemma_occurs_split(s, at, first, rest);
            let end = at + first.len();
            assert(word_ends(s, end)) by {
                assert(rest == bar_text() + decimal(items[1] as int) + more_numbers_text(
                    items,
                    2,
                ));
                lemma_occurs_chars(s, end, rest);
                assert(rest[0] == ' ');
                assert(s[end] == rest[0]);
            }
            lemma_number_reads(s, at, items[0]);
            lemma_decimal_round_trip(items[0] as int);
            lemma_number_text_token(s, at, first);
            assert(items.take(1) =~= seq![items[0]]);
            lemma_more_numbers_read(s, end, items, 1);
        },
        LiteralView::ArrayByLength(n) => {
            let number = decimal(n as int);
            lemma_occurs_split(s, at, seq!['['] + number, seq![']']);
            lemma_occurs_split(s, at, seq!['['], number);
            lemma_occurs_chars(s, at, seq!['[']);
            let end = at + 1 + number.len();
            lemma_occurs_chars(s, end, seq![']']);
            assert(s[at] == seq!['['][0]);
            assert(s[end] == seq![']'][0]);
            lemma_punctuation_token(s, at);
            lemma_number_reads(s, at + 1, n);
            lemma_punctuation_token(s, end);
        },
    }
}

/// White space before a literal does not change what is read.
pub proof fn lemma_literal_after_space(s: Seq<char>, at: int)
    requires
        0 <= at < s.len(),
        is_space(s[at]),
    ensures
        literal_at(s, at) == literal_at(s, at + 1),
{
    lemma_token_after_space(s, at);
    assert(number_at(s, at) == number_at(s, at + 1));
}

/// Whether `name` can be written as an identifier: a word that is no
/// keyword.
pub open spec fn is_identifier(name: Seq<char>) -> bool {
    is_word(name) && keyword_of(name) is None
}

/// An identifier that occurs and ends is read back.
pub proof fn lemma_ident_reads(s: Seq<char>, at: int, name: Seq<char>)
    requires
        is_identifier(name),
        occurs(s, at, name),
        word_ends(s, at + name.len()),
    ensures
        ident_at(s, at) == Ok::<(Seq<char>, int), SyntaxError>((name, at + name.len())),
        token_at(s, at).kind == TokenKind::Word,
        keyword_of(text_of(s, token_at(s, at))) is None,
{
    lemma_word_token(s, at, name);
}

/// White space before an identifier does not change what is read.
pub proof fn lemma_ident_after_space(s: Seq<char>, at: int)
    requires
        0 <= at < s.len(),
        is_space(s[at]),
    ensures
        ident_at(s, at) == ident_at(s, at + 1),
{
    lemma_token_after_space(s, at);
}

/// The text of an expression: a literal, a name, or a name with a literal in
/// square brackets.
pub open spec fn expr_text(expr: ExprView) -> Seq<char> {
    match expr {
        ExprView::Lit(literal) => literal_text(literal),
        ExprView::Ident(name) => name,
        ExprView::Index(name, index) => name + seq!['['] + literal_text(index) + seq![']'],
    }
}

/// Whether an expression can be written: its name is an identifier and its
/// literal can be written.
pub open spec fn expr_written(expr: ExprView) -> bool {
    match expr {
        ExprView::Lit(literal) => literal_written(literal),
        ExprView::Ident(name) => is_identifier(name),
        ExprView::Index(name, index) => is_identifier(name) && literal_written(index),
    }
}

/// Whether an expression that reaches up to `at` ends there: its last word
/// or number ends, and neither a bar nor an opening bracket comes next.
pub open spec fn expr_ends(s: Seq<char>, at: int) -> bool {
    &&& word_ends(s, at)
    &&& token_at(s, at).kind != TokenKind::Bar
    &&& token_at(s, at).kind != TokenKind::Open
}

/// The text of a written literal begins with a digit, a minus sign or an
/// opening bracket.
pub proof fn lemma_literal_text_start(literal: LiteralView)
    requires
        literal_written(literal),
    ensures
        literal_text(literal).len() > 0,
        is_digit(literal_text(literal)[0]) || literal_text(literal)[0] == '-' || literal_text(
            literal,
        )[0] == '[',
{
    match literal {
        LiteralView::Number(n) => {
            lemma_decimal_round_trip(n as int);
        },
        LiteralView::Array(items) => {
            lemma_decimal_round_trip(items[0] as int);
            let first = decimal(items[0] as int);
            assert(literal_text(literal)[0] == first[0]);
        },
        LiteralView::ArrayByLength(n) => {
            assert(literal_text(literal)[0] == '[');
        },
    }
}

/// A written expression that occurs and ends is read back.
pub proof fn lemma_expr_reads(s: Seq<char>, at: int, expr: ExprView)
    requires
        expr_written(expr),
        occurs(s, at, expr_text(expr)),
        expr_ends(s, at + expr_text(expr).len()),
    ensures
        expr_at(s, at) == Ok::<(ExprView, int), SyntaxError>((expr, at + expr_text(expr).len())),
{
    match expr {
        ExprView::Lit(literal) => {
            lemma_literal_reads(s, at, literal);
            lemma_literal_text_start(literal);
            lemma_occurs_chars(s, at, literal_text(literal));
            assert(s[at] == literal_text(literal)[0]);
            lemma_run_end_is(s, at, at, CharClass::Space);
            assert(token_at(s, at).kind != TokenKind::Word);
        },
        ExprView::Ident(name) => {
            lemma_ident_reads(s, at, name);
        },
        ExprView::Index(name, index) => {
            let inside = literal_text(index);
            lemma_occurs_split(s, at, name + seq!['['] + inside, seq![']']);
            lemma_occurs_split(s, at, name + seq!['['], inside);
            lemma_occurs_split(s, at, name, seq!['[']);
            let open = at + name.len();
            let close = open + 1 + inside.len();
            lemma_occurs_chars(s, open, seq!['[']);
            lemma_occurs_chars(s, close, seq![']']);
            assert(s[open] == seq!['['][0]);
            assert(s[close] == seq![']'][0]);
            lemma_ident_reads(s, at, name);
            lemma_punctuation_token(s, open);
            lemma_punctuation_token(s, close);
            lemma_literal_reads(s, open + 1, index);
        },
    }
}

/// White space before an expression does not change what is read.
pub proof fn lemma_expr_after_space(s: Seq<char>, at: int)
    requires
        0 <= at < s.len(),
        is_space(s[at]),
    ensures
        expr_at(s, at) == expr_at(s, at + 1),
{
    lemma_token_after_space(s, at);
    lemma_ident_after_space(s, at);
    lemma_literal_after_space(s, at);
}

/// What stands between the two sides of a written declaration or
/// assignment.
pub open spec fn equals_text() -> Seq<char> {
    seq![' ', '=', ' ']
}

/// The text of a statement.
pub open spec fn stmt_text(stmt: StmtView) -> Seq<char> {
    match stmt {
        StmtView::Decl(name, literal) => seq!['u', '8', ' '] + name + equals_text() + literal_text(
            literal,
        ),
        StmtView::Assign(target, literal) => expr_text(target) + equals_text() + literal_text(
            literal,
        ),
        StmtView::Print(expr) => seq!['p', 'r', 'i', 'n', 't', ' '] + expr_text(expr),
        StmtView::Test5G => seq!['t', 'e', 's', 't', '5', 'g'],
    }
}

/// Whether a statement can be written: its names are identifiers, its
/// literals can be written, and it assigns to no literal.
pub open spec fn stmt_written(stmt: StmtView) -> bool {
    match stmt {
        StmtView::Decl(name, literal) => is_identifier(name) && literal_written(literal),
        StmtView::Assign(target, literal) => !(target is Lit) && expr_written(target)
            && literal_written(literal),
        StmtView::Print(expr) => expr_written(expr),
        StmtView::Test5G => true,
    }
}

/// Whether a statement that reaches up to `at` ends there: its last word or
/// number ends, and what comes next is a word or nothing.
pub open spec fn stmt_ends(s: Seq<char>, at: int) -> bool {
    &&& word_ends(s, at)
    &&& (token_at(s, at).kind == TokenKind::Word || token_at(s, at).kind == TokenKind::End)
}

/// An equals sign between blanks is read as the token it is.
proof fn lemma_equals_reads(s: Seq<char>, at: int)
    requires
        occurs(s, at, equals_text()),
    ensures
        token_at(s, at) == (TokenView { kind: TokenKind::Equals, start: at + 1, end: at + 2 }),
        expected_at(s, at, TokenKind::Equals) == Ok::<int, SyntaxError>(at + 2),
        0 <= at,
        at + 3 <= s.len(),
        is_space(s[at]),
        is_space(s[at + 2]),
{
    lemma_occurs_chars(s, at, equals_text());
    assert(s[at] == equals_text()[0] && s[at + 1] == equals_text()[1] && s[at + 2]
        == equals_text()[2]);
    lemma_token_after_space(s, at);
    lemma_punctuation_token(s, at + 1);
}

/// The type tag and a blank, where they occur, are read as the keyword.
proof fn lemma_type_tag_reads(s: Seq<char>, at: int)
    requires
        occurs(s, at, seq!['u', '8', ' ']),
    ensures
        token_at(s, at) == (TokenView { kind: TokenKind::Word, start: at, end: at + 2 }),
        keyword_at(s, token_at(s, at)) == Some(Keyword::TypeTag),
        is_space(s[at + 2]),
        0 <= at,
        at + 3 <= s.len(),
{
    let tag = seq!['u', '8', ' '];
    lemma_occurs_chars(s, at, tag);
    assert(s[at] == tag[0] && s[at + 1] == tag[1] && s[at + 2] == tag[2]);
    lemma_run_end_is(s, at, at, CharClass::Space);
    lemma_run_end_is(s, at + 1, at + 2, CharClass::Word);
    assert(s.subrange(at, at + 2) =~= seq!['u', '8']);
}

/// The print keyword and a blank, where they occur, are read as the keyword.
pub proof fn lemma_print_keyword_reads(s: Seq<char>, at: int)
    requires
        occurs(s, at, seq!['p', 'r', 'i', 'n', 't', ' ']),
    ensures
        token_at(s, at) == (TokenView { kind: TokenKind::Word, start: at, end: at + 5 }),
        keyword_at(s, token_at(s, at)) == Some(Keyword::Print),
        is_space(s[at + 5]),
        0 <= at,
        at + 6 <= s.len(),
{
    let head = seq!['p', 'r', 'i', 'n', 't', ' '];
    lemma_occurs_chars(s, at, head);
    assert(s[at] == head[0] && s[at + 1] == head[1] && s[at + 2] == head[2] && s[at + 3]
        == head[3] && s[at + 4] == head[4] && s[at + 5] == head[5]);
    lemma_run_end_is(s, at, at, CharClass::Space);
    lemma_run_end_is(s, at + 1, at + 5, CharClass::Word);
    let word = s.subrange(at, at + 5);
    assert(word =~= seq!['p', 'r', 'i', 'n', 't']);
    assert(word.len() != seq!['u', '8'].len());
}

/// The rest of a written declaration, after its type tag, is read back.
proof fn lemma_decl_rest_reads(s: Seq<char>, from: int, name: Seq<char>, literal: LiteralView)
    requires
        is_identifier(name),
        literal_written(literal),
        0 <= from < s.len(),
        is_space(s[from]),
        occurs(s, from + 1, name + equals_text() + literal_text(literal)),
        stmt_ends(s, from + 1 + (name + equals_text() + literal_text(literal)).len()),
    ensures
        decl_stmt_at(s, from) == Ok::<(StmtView, int), SyntaxError>(
            (
                StmtView::Decl(name, literal),
                from + 1 + (name + equals_text() + literal_text(literal)).len(),
            ),
        ),
{
    let value = literal_text(literal);
    lemma_occurs_split(s, from + 1, name + equals_text(), value);
    lemma_occurs_split(s, from + 1, name, equals_text());
    let after_name = from + 1 + name.len();
    lemma_equals_reads(s, after_name);
    lemma_ident_after_space(s, from);
    lemma_ident_reads(s, from + 1, name);
    lemma_literal_after_space(s, after_name + 2);
    lemma_literal_reads(s, after_name + 3, literal);
}

/// A written declaration that occurs and ends is read back.
proof fn lemma_decl_reads(s: Seq<char>, at: int, name: Seq<char>, literal: LiteralView)
    requires
        is_identifier(name),
        literal_written(literal),
        occurs(s, at, stmt_text(StmtView::Decl(name, literal))),
        stmt_ends(s, at + stmt_text(StmtView::Decl(name, literal)).len()),
    ensures
        stmt_at(s, at) == Ok::<(StmtView, int), SyntaxError>(
            (
                StmtView::Decl(name, literal),
                at + stmt_text(StmtView::Decl(name, literal)).len(),
            ),
        ),
{
    let tag = seq!['u', '8', ' '];
    let rest = name + equals_text() + literal_text(literal);
    assert(stmt_text(StmtView::Decl(name, literal)) =~= tag + rest);
    lemma_occurs_split(s, at, tag, rest);
    lemma_type_tag_reads(s, at);
    lemma_decl_rest_reads(s, at + 2, name, literal);
}

/// A written assignment that occurs and ends is read back.
proof fn lemma_assign_reads(s: Seq<char>, at: int, target: ExprView, literal: LiteralView)
    requires
        !(target is Lit),
        expr_written(target),
        literal_written(literal),
        occurs(s, at, stmt_text(StmtView::Assign(target, literal))),
        stmt_ends(s, at + stmt_text(StmtView::Assign(target, literal)).len()),
    ensures
        stmt_at(s, at) == Ok::<(StmtView, int), SyntaxError>(
            (
                StmtView::Assign(target, literal),
                at + stmt_text(StmtView::Assign(target, literal)).len(),
            ),
        ),
{
    let left = expr_text(target);
    let value = literal_text(literal);
    lemma_occurs_split(s, at, left + equals_text(), value);
    lemma_occurs_split(s, at, left, equals_text());
    let after_target = at + left.len();
    lemma_equals_reads(s, after_target);
    lemma_expr_reads(s, at, target);
    lemma_literal_after_space(s, after_target + 2);
    lemma_literal_reads(s, after_target + 3, literal);
    // The statement begins with the name of its target, which is no keyword.
    let name = match target {
        ExprView::Ident(name) => name,
        ExprView::Index(name, _) => name,
        ExprView::Lit(_) => Seq::empty(),
    };
    match target {
        ExprView::Ident(_) => {
            lemma_ident_reads(s, at, name);
        },
        ExprView::Index(_, index) => {
            lemma_occurs_split(s, at, name + seq!['['] + literal_text(index), seq![']']);
            lemma_occurs_split(s, at, name + seq!['['], literal_text(index));
            lemma_occurs_split(s, at, name, seq!['[']);
            lemma_occurs_chars(s, at + name.len(), seq!['[']);
            assert(s[at + name.len()] == seq!['['][0]);
            lemma_ident_reads(s, at, name);
        },
        ExprView::Lit(_) => {},
    }
    assert(keyword_at(s, token_at(s, at)) is None);
    assert(expr_stmt_at(s, at) == assign_stmt_at(s, target, after_target + 2));
}

/// A written print statement that occurs and ends is read back.
proof fn lemma_print_reads(s: Seq<char>, at: int, expr: ExprView)
    requires
        expr_written(expr),
        occurs(s, at, stmt_text(StmtView::Print(expr))),
        stmt_ends(s, at + stmt_text(StmtView::Print(expr)).len()),
    ensures
        stmt_at(s, at) == Ok::<(StmtView, int), SyntaxError>(
            (StmtView::Print(expr), at + stmt_text(StmtView::Print(expr)).len()),
        ),
{
    let head = seq!['p', 'r', 'i', 'n', 't', ' '];
    lemma_occurs_split(s, at, head, expr_text(expr));
    lemma_print_keyword_reads(s, at);
    lemma_expr_after_space(s, at + 5);
    lemma_expr_reads(s, at + 6, expr);
    assert(print_stmt_at(s, at + 5) == Ok::<(StmtView, int), SyntaxError>(
        (StmtView::Print(expr), at + 6 + expr_text(expr).len()),
    ));
}

/// The special command that occurs and ends is read back.
proof fn lemma_test5g_reads(s: Seq<char>, at: int)
    requires
        occurs(s, at, stmt_text(StmtView::Test5G)),
        stmt_ends(s, at + stmt_text(StmtView::Test5G).len()),
    ensures
        stmt_at(s, at) == Ok::<(StmtView, int), SyntaxError>(
            (StmtView::Test5G, at + stmt_text(StmtView::Test5G).len()),
        ),
{
    let word = seq!['t', 'e', 's', 't', '5', 'g'];
    assert(is_word(word)) by {
        assert(word[0] == 't' && word[1] == 'e' && word[2] == 's' && word[3] == 't' && word[4]
            == '5' && word[5] == 'g');
    }
    lemma_word_token(s, at, word);
    assert(word.len() != seq!['u', '8'].len());
    assert(word.len() != seq!['p', 'r', 'i', 'n', 't'].len());
    assert(keyword_of(word) == Some(Keyword::Test5G));
}

/// A written statement that occurs and ends is read back.
pub proof fn lemma_stmt_reads(s: Seq<char>, at: int, stmt: StmtView)
    requires
        stmt_written(stmt),
        occurs(s, at, stmt_text(stmt)),
        stmt_ends(s, at + stmt_text(stmt).len()),
    ensures
        stmt_at(s, at) == Ok::<(StmtView, int), SyntaxError>((stmt, at + stmt_text(stmt).len())),
{
    match stmt {
        StmtView::Decl(name, literal) => lemma_decl_reads(s, at, name, literal),
        StmtView::Assign(target, literal) => lemma_assign_reads(s, at, target, literal),
        StmtView::Print(expr) => lemma_print_reads(s, at, expr),
        StmtView::Test5G => lemma_test5g_reads(s, at),
    }
}

/// The text of the statements of `stmts` from index `from` on, each on a
/// line of its own.
pub open spec fn program_text_from(stmts: Seq<StmtView>, from: int) -> Seq<char>
    decreases stmts.len() - from,
{
    if 0 <= from < stmts.len() {
        stmt_text(stmts[from]) + seq!['\n'] + program_text_from(stmts, from + 1)
    } else {
        Seq::empty()
    }
}

/// The text of a program: its statements in order, each on a line of its
/// own.
pub open spec fn program_text(stmts: Seq<StmtView>) -> Seq<char> {
    program_text_from(stmts, 0)
}

/// Whether a program can be written: each of its statements can.
pub open spec fn program_written(stmts: Seq<StmtView>) -> bool {
    forall|i: int| 0 <= i < stmts.len() ==> stmt_written(#[trigger] stmts[i])
}

/// The text of a written statement begins with a letter or an underscore.
proof fn lemma_stmt_text_start(stmt: StmtView)
    requires
        stmt_written(stmt),
    ensures
        stmt_text(stmt).len() > 0,
        is_word_start(stmt_text(stmt)[0]),
{
    match stmt {
        StmtView::Decl(name, literal) => {
            assert(stmt_text(stmt)[0] == 'u');
        },
        StmtView::Assign(target, literal) => {
            match target {
                ExprView::Ident(name) => {
                    assert(stmt_text(stmt)[0] == name[0]);
                },
                ExprView::Index(name, index) => {
                    assert(stmt_text(stmt)[0] == name[0]);
                },
                ExprView::Lit(_) => {},
            }
        },
        StmtView::Print(expr) => {
            assert(stmt_text(stmt)[0] == 'p');
        },
        StmtView::Test5G => {
            assert(stmt_text(stmt)[0] == 't');
        },
    }
}

/// A text that occurs and begins with a letter or an underscore has a word
/// as its token.
proof fn lemma_word_starts(s: Seq<char>, at: int, text: Seq<char>)
    requires
        occurs(s, at, text),
        text.len() > 0,
        is_word_start(text[0]),
    ensures
        token_at(s, at).kind == TokenKind::Word,
{
    lemma_occurs_chars(s, at, text);
    assert(s[at] == text[0]);
    lemma_run_end_is(s, at, at, CharClass::Space);
}

/// White space before a statement does not change what is read.
proof fn lemma_stmts_after_space(s: Seq<char>, at: int, done: Seq<StmtView>)
    requires
        0 <= at < s.len(),
        is_space(s[at]),
    ensures
        stmts_from(s, at, done) == stmts_from(s, at + 1, done),
{
    lemma_token_after_space(s, at);
    lemma_expr_after_space(s, at);
    assert(expr_stmt_at(s, at) == expr_stmt_at(s, at + 1));
    assert(stmt_at(s, at) == stmt_at(s, at + 1));
}

/// The lines of a written program from one statement on, where they reach
/// the end of the text, are read back after the statements before them.
proof fn lemma_program_reads(s: Seq<char>, at: int, stmts: Seq<StmtView>, from: int)
    requires
        program_written(stmts),
        0 <= from <= stmts.len(),
        occurs(s, at, program_text_from(stmts, from)),
        at + program_text_from(stmts, from).len() == s.len(),
    ensures
        stmts_from(s, at, stmts.take(from)) == Ok::<Seq<StmtView>, SyntaxError>(stmts),
    decreases stmts.len() - from,
{
    if from == stmts.len() {
        lemma_end_token(s);
        assert(stmts.take(from) =~= stmts);
    } else {
        let stmt = stmts[from];
        let line = stmt_text(stmt);
        let rest = program_text_from(stmts, from + 1);
        assert(program_text_from(stmts, from) == line + seq!['\n'] + rest);
        lemma_occurs_split(s, at, line + seq!['\n'], rest);
        lemma_occurs_split(s, at, line, seq!['\n']);
        let end = at + line.len();
        lemma_occurs_chars(s, end, seq!['\n']);
        assert(s[end] == seq!['\n'][0]);
        lemma_token_after_space(s, end);
        assert(stmt_ends(s, end)) by {
            if from + 1 == stmts.len() {
                assert(rest.len() == 0);
                lemma_end_token(s);
            } else {
                let next = stmt_text(stmts[from + 1]);
                let later = program_text_from(stmts, from + 2);
                assert(rest == next + seq!['\n'] + later);
                lemma_occurs_split(s, end + 1, next + seq!['\n'], later);
                lemma_occurs_split(s, end + 1, next, seq!['\n']);
                lemma_stmt_text_start(stmts[from + 1]);
                lemma_word_starts(s, end + 1, next);
            }
        }
        lemma_stmt_text_start(stmt);
        lemma_word_starts(s, at, line);
        lemma_stmt_reads(s, at, stmt);
        let done = stmts.take(from).push(stmt);
        assert(done =~= stmts.take(from + 1));
        assert(stmts_from(s, at, stmts.take(from)) == stmts_from(s, end, done));
        lemma_stmts_after_space(s, end, done);
        lemma_program_reads(s, end + 1, stmts, from + 1);
    }
}

/// Reading inverts writing: the text of a program that can be written is a
/// program, the same one.
pub proof fn law_text_reads_back(stmts: Seq<StmtView>)
    requires
        program_written(stmts),
    ensures
        program(program_text(stmts)) == Ok::<Seq<StmtView>, SyntaxError>(stmts),
{
    let s = program_text(stmts);
    assert(s.subrange(0, s.len() as int) =~= s);
    assert(stmts.take(0) =~= Seq::<StmtView>::empty());
    lemma_program_reads(s, 0, stmts, 0);
}

/// The numbers after the first are those of the array without its last
/// number, then a bar and the last.
proof fn lemma_more_numbers_text_last(items: Seq<i64>, from: int)
    requires
        1 <= from < items.len(),
    ensures
        more_numbers_text(items, from) == more_numbers_text(items.drop_last(), from) + separator()
            + decimal(items.last() as int),
    decreases items.len() - from,
{
    let front = items.drop_last();
    let last = decimal(items.last() as int);
    if from == items.len() - 1 {
        assert(more_numbers_text(items, from + 1) =~= Seq::<char>::empty());
        assert(more_numbers_text(front, from) =~= Seq::<char>::empty());
        assert(more_numbers_text(items, from) =~= more_numbers_text(front, from) + separator()
            + last);
    } else {
        lemma_more_numbers_text_last(items, from + 1);
        assert(front[from] == items[from]);
        let number = decimal(items[from] as int);
        assert(more_numbers_text(items, from) =~= bar_text() + number + (more_numbers_text(
            front,
            from + 1,
        ) + separator() + last));
        assert(more_numbers_text(front, from) =~= bar_text() + number + more_numbers_text(
            front,
            from + 1,
        ));
        assert(more_numbers_text(items, from) =~= more_numbers_text(front, from) + separator()
            + last);
    }
}

/// The numbers of an array with bars between them are the line that
/// printing the array emits.
pub proof fn lemma_array_text_is_joined(items: Seq<i64>)
    requires
        items.len() >= 1,
    ensures
        decimal(items[0] as int) + more_numbers_text(items, 1) == joined(items),
    decreases items.len(),
{
    if items.len() == 1 {
        assert(more_numbers_text(items, 1) =~= Seq::<char>::empty());
        assert(decimal(items[0] as int) + more_numbers_text(items, 1) =~= joined(items));
    } else {
        let front = items.drop_last();
        lemma_array_text_is_joined(front);
        lemma_more_numbers_text_last(items, 1);
        assert(front[0] == items[0]);
        assert(decimal(items[0] as int) + more_numbers_text(items, 1) =~= (decimal(
            front[0] as int,
        ) + more_numbers_text(front, 1)) + separator() + decimal(items.last() as int));
    }
}

/// Printing a number or an array that is written out echoes it: the line
/// emitted is the text of the literal, and no variable changes.
pub proof fn law_print_echoes_literal(env: Env, literal: LiteralView)
    requires
        literal_written(literal),
        !(literal is ArrayByLength),
    ensures
        response(env, program_text(seq![StmtView::Print(ExprView::Lit(literal))])) == (Response {
            env,
            output: seq![literal_text(literal)],
            error: None,
        }),
{
    reveal_with_fuel(run, 2);
    let stmt = StmtView::Print(ExprView::Lit(literal));
    let stmts = seq![stmt];
    assert(program_written(stmts));
    law_text_reads_back(stmts);
    if let LiteralView::Array(items) = literal {
        lemma_array_text_is_joined(items);
    }
    assert(rendered(literal_value(literal)) == literal_text(literal));
    assert(stmts.drop_first().len() == 0);
    assert(run(env, stmts).output =~= seq![literal_text(literal)]);
}

/// The text of a word token is written as a word.
proof fn lemma_word_token_is_word(s: Seq<char>, from: int)
    requires
        token_at(s, from).kind == TokenKind::Word,
    ensures
        is_word(text_of(s, token_at(s, from))),
{
    let token = token_at(s, from);
    lemma_token_bounds(s, from);
    lemma_run_end(s, token.start + 1, CharClass::Word);
    let word = text_of(s, token);
    assert(word[0] == s[token.start]);
    assert forall|i: int| 0 <= i < word.len() implies is_word_char(#[trigger] word[i]) by {
        assert(word[i] == s[token.start + i]);
    }
}

/// A literal that was read can be written.
proof fn lemma_literal_at_written(s: Seq<char>, from: int)
    ensures
        literal_at(s, from) matches Ok((literal, _)) ==> literal_written(literal),
{
    if token_at(s, from).kind != TokenKind::Open {
        if let Ok((n, after)) = number_at(s, from) {
            lemma_number_at_advances(s, from);
            lemma_numbers_after_bounds(s, after, seq![n]);
        }
    }
}

/// An expression that was read can be written.
proof fn lemma_expr_at_written(s: Seq<char>, from: int)
    ensures
        expr_at(s, from) matches Ok((expr, _)) ==> expr_written(expr),
{
    if token_at(s, from).kind == TokenKind::Word {
        lemma_word_token_is_word(s, from);
        if let Ok((name, after)) = ident_at(s, from) {
            lemma_literal_at_written(s, token_at(s, after).end);
        }
    } else {
        lemma_literal_at_written(s, from);
    }
}

/// A statement that was read can be written. In particular it assigns to no
/// literal.
proof fn lemma_stmt_at_written(s: Seq<char>, from: int)
    ensures
        stmt_at(s, from) matches Ok((stmt, _)) ==> stmt_written(stmt),
{
    let first = token_at(s, from);
    match keyword_at(s, first) {
        Some(Keyword::TypeTag) => {
            if let Ok((name, after)) = ident_at(s, first.end) {
                lemma_word_token_is_word(s, first.end);
                if let Ok(equals) = expected_at(s, after, TokenKind::Equals) {
                    lemma_literal_at_written(s, equals);
                }
            }
        },
        Some(Keyword::Print) => {
            lemma_expr_at_written(s, first.end);
        },
        Some(Keyword::Test5G) => {},
        None => {
            lemma_expr_at_written(s, from);
            if let Ok((expr, after)) = expr_at(s, from) {
                lemma_literal_at_written(s, token_at(s, after).end);
            }
        },
    }
}

/// The statements that were read after statements that can be written can
/// be written too.
proof fn lemma_stmts_from_written(s: Seq<char>, from: int, done: Seq<StmtView>)
    requires
        program_written(done),
    ensures
        stmts_from(s, from, done) matches Ok(stmts) ==> program_written(stmts),
    decreases s.len() - from,
{
    if token_at(s, from).kind != TokenKind::End {
        lemma_token_bounds(s, from);
        lemma_stmt_at_advances(s, from);
        lemma_stmt_at_written(s, from);
        if let Ok((stmt, end)) = stmt_at(s, from) {
            let more = done.push(stmt);
            assert forall|i: int| 0 <= i < more.len() implies stmt_written(#[trigger] more[i]) by {
                if i < done.len() {
                    assert(more[i] == done[i]);
                }
            }
            lemma_stmts_from_written(s, end, more);
        }
    }
}

/// Whatever text a program was read from, the program can be written: its
/// names are identifiers, its arrays have two numbers or more, and it
/// assigns to no literal.
pub proof fn law_program_read_is_written(s: Seq<char>)
    ensures
        program(s) matches Ok(stmts) ==> program_written(stmts),
{
    lemma_stmts_from_written(s, 0, Seq::empty());
}

/// Reading and writing are inverse on programs that were read: the text of
/// such a program is read as the same program.
pub proof fn law_read_write_read(s: Seq<char>)
    ensures
        program(s) matches Ok(stmts) ==> program(program_text(stmts)) == program(s),
{
    law_program_read_is_written(s);
    if let Ok(stmts) = program(s) {
        law_text_reads_back(stmts);
    }
}

} // verus!
