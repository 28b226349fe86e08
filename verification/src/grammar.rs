//! The grammar of the language, as functions from a text and a place in it
//! to what is read there.
//!
//! ```text
//! program  = { stmt }
//! stmt     = "u8" ident "=" literal
//!          | "print" expr
//!          | "test5g"
//!          | target "=" literal
//!          | expr
//! target   = ident [ "[" literal "]" ]
//! expr     = target | literal
//! literal  = number { "|" number } | "[" number "]"
//! ```
//!
//! `u8`, `print` and `test5g` are words that no identifier can be. White
//! space, line ends included, only separates tokens. An expression that
//! stands alone is printed.

use vstd::prelude::*;
use crate::ir::{ExprView, LiteralView, StmtView};
use crate::lexer::{lemma_token_bounds, number_value, token_at, TokenKind, TokenView};
use crate::value::{digits, push_digits};

verus! {

/// What is wrong with a text that is no program.
#[derive(Debug, Clone, Copy, PartialEq, Eq, Structural)]
pub enum SyntaxErrorKind {
    /// Characters that form no token: a character that the language has no
    /// use for, a minus sign without digits, digits that run into a word.
    MalformedToken,
    /// A token that cannot stand where it stands.
    UnexpectedToken,
    /// The text ends where a statement is not complete.
    UnexpectedEnd,
    /// A number that does not fit 64 bits with a sign.
    NumberOutOfRange,
}

/// Why a text is no program, and the characters of the offending token:
/// those from index `start` up to index `end`, which is not among them.
/// Where the text ends too early, both are the number of its characters.
#[derive(Debug, Clone, Copy, PartialEq, Eq, Structural)]
pub struct SyntaxError {
    pub kind: SyntaxErrorKind,
    pub start: usize,
    pub end: usize,
}

/// The text that tells a user of `error`.
pub open spec fn syntax_error_text(error: SyntaxError) -> Seq<char> {
    (match error.kind {
        SyntaxErrorKind::MalformedToken => "malformed token"@,
        SyntaxErrorKind::UnexpectedToken => "unexpected token"@,
        SyntaxErrorKind::UnexpectedEnd => "unexpected end of input"@,
        SyntaxErrorKind::NumberOutOfRange => "number out of range"@,
    }) + " at character "@ + digits(error.start as nat)
}

impl SyntaxError {
    /// The text that tells a user of this error.
    pub fn to_string(&self) -> (text: String)
        ensures
            text@ == syntax_error_text(*self),
    {
        let mut text = match self.kind {
            SyntaxErrorKind::MalformedToken => "malformed token".to_owned(),
            SyntaxErrorKind::UnexpectedToken => "unexpected token".to_owned(),
            SyntaxErrorKind::UnexpectedEnd => "unexpected end of input".to_owned(),
            SyntaxErrorKind::NumberOutOfRange => "number out of range".to_owned(),
        };
        text.append(" at character ");
        push_digits(&mut text, self.start as u64);
        text
    }
}

/// The words with a meaning of their own.
#[derive(Debug, Clone, Copy, PartialEq, Eq, Structural)]
pub enum Keyword {
    /// `u8`, which begins a declaration.
    TypeTag,
    /// `print`
    Print,
    /// `test5g`
    Test5G,
}

/// The keyword that `word` is, if it is one.
pub open spec fn keyword_of(word: Seq<char>) -> Option<Keyword> {
    if word == seq!['u', '8'] {
        Some(Keyword::TypeTag)
    } else if word == seq!['p', 'r', 'i', 'n', 't'] {
        Some(Keyword::Print)
    } else if word == seq!['t', 'e', 's', 't', '5', 'g'] {
        Some(Keyword::Test5G)
    } else {
        None
    }
}

/// The characters that `token` covers.
pub open spec fn text_of(s: Seq<char>, token: TokenView) -> Seq<char> {
    s.subrange(token.start, token.end)
}

/// The error for a token that cannot stand where it stands.
pub open spec fn unexpected(token: TokenView) -> SyntaxError {
    SyntaxError {
        kind: match token.kind {
            TokenKind::Malformed => SyntaxErrorKind::MalformedToken,
            TokenKind::End => SyntaxErrorKind::UnexpectedEnd,
            _ => SyntaxErrorKind::UnexpectedToken,
        },
        start: token.start as usize,
        end: token.end as usize,
    }
}

/// A token of `kind` at `from`: where it ends.
pub open spec fn expected_at(s: Seq<char>, from: int, kind: TokenKind) -> Result<
    int,
    SyntaxError,
> {
    let token = token_at(s, from);
    if token.kind == kind {
        Ok(token.end)
    } else {
        Err(unexpected(token))
    }
}

/// A number at `from`: its value and where it ends.
pub open spec fn number_at(s: Seq<char>, from: int) -> Result<(i64, int), SyntaxError> {
    let token = token_at(s, from);
    if token.kind == TokenKind::Number {
        let n = number_value(text_of(s, token));
        if i64::MIN <= n <= i64::MAX {
            Ok((n as i64, token.end))
        } else {
            Err(
                SyntaxError {
                    kind: SyntaxErrorKind::NumberOutOfRange,
                    start: token.start as usize,
                    end: token.end as usize,
                },
            )
        }
    } else {
        Err(unexpected(token))
    }
}

/// The numbers that follow `items` at `from`, each after a `|`: all of them,
/// and where the last one ends.
pub open spec fn numbers_after(s: Seq<char>, from: int, items: Seq<i64>) -> Result<
    (Seq<i64>, int),
    SyntaxError,
>
    decreases s.len() - from,
    via numbers_after_decreases
{
    let bar = token_at(s, from);
    if bar.kind == TokenKind::Bar {
        match number_at(s, bar.end) {
            Ok((n, end)) => numbers_after(s, end, items.push(n)),
            Err(error) => Err(error),
        }
    } else {
        Ok((items, from))
    }
}

#[via_fn]
proof fn numbers_after_decreases(s: Seq<char>, from: int, items: Seq<i64>) {
    let bar = token_at(s, from);
    if bar.kind == TokenKind::Bar {
        lemma_token_bounds(s, from);
        lemma_token_bounds(s, bar.end);
    }
}

/// A literal at `from`: one number, two or more numbers with `|` between
/// them, or a number in square brackets.
pub open spec fn literal_at(s: Seq<char>, from: int) -> Result<(LiteralView, int), SyntaxError> {
    let first = token_at(s, from);
    if first.kind == TokenKind::Open {
        match number_at(s, first.end) {
            Ok((n, after)) => match expected_at(s, after, TokenKind::Close) {
                Ok(end) => Ok((LiteralView::ArrayByLength(n), end)),
                Err(error) => Err(error),
            },
            Err(error) => Err(error),
        }
    } else {
        match number_at(s, from) {
            Ok((n, after)) => match numbers_after(s, after, seq![n]) {
                Ok((items, end)) => Ok(
                    (
                        if items.len() == 1 {
                            LiteralView::Number(n)
                        } else {
                            LiteralView::Array(items)
                        },
                        end,
                    ),
                ),
                Err(error) => Err(error),
            },
            Err(error) => Err(error),
        }
    }
}

/// An identifier at `from`: a word that is no keyword.
pub open spec fn ident_at(s: Seq<char>, from: int) -> Result<(Seq<char>, int), SyntaxError> {
    let token = token_at(s, from);
    if token.kind == TokenKind::Word && keyword_of(text_of(s, token)) is None {
        Ok((text_of(s, token), token.end))
    } else {
        Err(unexpected(token))
    }
}

/// An expression at `from`: an identifier, with an index in square brackets
/// or without one, or a literal.
pub open spec fn expr_at(s: Seq<char>, from: int) -> Result<(ExprView, int), SyntaxError> {
    if token_at(s, from).kind == TokenKind::Word {
        match ident_at(s, from) {
            Ok((name, after)) => {
                let open = token_at(s, after);
                if open.kind == TokenKind::Open {
                    match literal_at(s, open.end) {
                        Ok((index, close)) => match expected_at(s, close, TokenKind::Close) {
                            Ok(end) => Ok((ExprView::Index(name, index), end)),
                            Err(error) => Err(error),
                        },
                        Err(error) => Err(error),
                    }
                } else {
                    Ok((ExprView::Ident(name), after))
                }
            },
            Err(error) => Err(error),
        }
    } else {
        match literal_at(s, from) {
            Ok((literal, end)) => Ok((ExprView::Lit(literal), end)),
            Err(error) => Err(error),
        }
    }
}

/// The rest of a declaration, after its type tag: a name, `=`, a literal.
pub open spec fn decl_stmt_at(s: Seq<char>, from: int) -> Result<(StmtView, int), SyntaxError> {
    match ident_at(s, from) {
        Ok((name, after)) => match expected_at(s, after, TokenKind::Equals) {
            Ok(equals) => match literal_at(s, equals) {
                Ok((literal, end)) => Ok((StmtView::Decl(name, literal), end)),
                Err(error) => Err(error),
            },
            Err(error) => Err(error),
        },
        Err(error) => Err(error),
    }
}

/// The rest of an assignment to `target`, after its `=`: a literal.
pub open spec fn assign_stmt_at(s: Seq<char>, target: ExprView, from: int) -> Result<
    (StmtView, int),
    SyntaxError,
> {
    match literal_at(s, from) {
        Ok((literal, end)) => Ok((StmtView::Assign(target, literal), end)),
        Err(error) => Err(error),
    }
}

/// The rest of a print statement, after its keyword: an expression.
pub open spec fn print_stmt_at(s: Seq<char>, from: int) -> Result<(StmtView, int), SyntaxError> {
    match expr_at(s, from) {
        Ok((expr, end)) => Ok((StmtView::Print(expr), end)),
        Err(error) => Err(error),
    }
}

/// A statement that begins with an expression. With `=` after an
/// identifier or an indexed identifier it is an assignment; otherwise the
/// expression stands alone and is printed.
pub open spec fn expr_stmt_at(s: Seq<char>, from: int) -> Result<(StmtView, int), SyntaxError> {
    match expr_at(s, from) {
        Ok((expr, after)) => {
            let equals = token_at(s, after);
            if !(expr is Lit) && equals.kind == TokenKind::Equals {
                assign_stmt_at(s, expr, equals.end)
            } else {
                Ok((StmtView::Print(expr), after))
            }
        },
        Err(error) => Err(error),
    }
}

/// The keyword that `token` is, if it is one.
pub open spec fn keyword_at(s: Seq<char>, token: TokenView) -> Option<Keyword> {
    if token.kind == TokenKind::Word {
        keyword_of(text_of(s, token))
    } else {
        None
    }
}

/// A statement at `from`, and where it ends.
pub open spec fn stmt_at(s: Seq<char>, from: int) -> Result<(StmtView, int), SyntaxError> {
    let first = token_at(s, from);
    match keyword_at(s, first) {
        Some(Keyword::TypeTag) => decl_stmt_at(s, first.end),
        Some(Keyword::Print) => print_stmt_at(s, first.end),
        Some(Keyword::Test5G) => Ok((StmtView::Test5G, first.end)),
        None => expr_stmt_at(s, from),
    }
}

/// The statements from `from` to the end of the text, after `done`.
pub open spec fn stmts_from(s: Seq<char>, from: int, done: Seq<StmtView>) -> Result<
    Seq<StmtView>,
    SyntaxError,
>
    decreases s.len() - from,
    via stmts_from_decreases
{
    if token_at(s, from).kind == TokenKind::End {
        Ok(done)
    } else {
        match stmt_at(s, from) {
            Ok((stmt, end)) => stmts_from(s, end, done.push(stmt)),
            Err(error) => Err(error),
        }
    }
}

#[via_fn]
proof fn stmts_from_decreases(s: Seq<char>, from: int, done: Seq<StmtView>) {
    if token_at(s, from).kind != TokenKind::End {
        lemma_token_bounds(s, from);
        lemma_stmt_at_advances(s, from);
    }
}

/// The program that a text is: its statements in order, or the first error.
pub open spec fn program(s: Seq<char>) -> Result<Seq<StmtView>, SyntaxError> {
    stmts_from(s, 0, Seq::empty())
}

/// A number covers at least one character and ends within the text.
pub proof fn lemma_number_at_advances(s: Seq<char>, from: int)
    ensures
        number_at(s, from) matches Ok((_, end)) ==> 0 <= from < end <= s.len(),
{
    lemma_token_bounds(s, from);
}

/// A token that is there covers at least one character and ends within the
/// text.
pub proof fn lemma_expected_at_advances(s: Seq<char>, from: int, kind: TokenKind)
    ensures
        kind != TokenKind::End ==> (expected_at(s, from, kind) matches Ok(end) ==> 0 <= from < end
            <= s.len()),
{
    lemma_token_bounds(s, from);
}

/// The numbers after a bar end within the text, at or after the place where
/// they were looked for, and there are no fewer of them than before.
pub proof fn lemma_numbers_after_bounds(s: Seq<char>, from: int, items: Seq<i64>)
    requires
        0 <= from <= s.len(),
    ensures
        numbers_after(s, from, items) matches Ok((all, end)) ==> from <= end <= s.len()
            && all.len() >= items.len(),
    decreases s.len() - from,
{
    let bar = token_at(s, from);
    if bar.kind == TokenKind::Bar {
        lemma_token_bounds(s, from);
        lemma_number_at_advances(s, bar.end);
        match number_at(s, bar.end) {
            Ok((n, end)) => {
                lemma_numbers_after_bounds(s, end, items.push(n));
            },
            Err(_) => {},
        }
    }
}

/// A literal covers at least one character and ends within the text.
pub proof fn lemma_literal_at_advances(s: Seq<char>, from: int)
    ensures
        literal_at(s, from) matches Ok((_, end)) ==> 0 <= from < end <= s.len(),
{
    let first = token_at(s, from);
    lemma_token_bounds(s, from);
    if first.kind == TokenKind::Open {
        lemma_number_at_advances(s, first.end);
        if let Ok((n, after)) = number_at(s, first.end) {
            lemma_expected_at_advances(s, after, TokenKind::Close);
        }
    } else {
        lemma_number_at_advances(s, from);
        if let Ok((n, after)) = number_at(s, from) {
            lemma_numbers_after_bounds(s, after, seq![n]);
        }
    }
}

/// An expression covers at least one character and ends within the text.
pub proof fn lemma_expr_at_advances(s: Seq<char>, from: int)
    ensures
        expr_at(s, from) matches Ok((_, end)) ==> 0 <= from < end <= s.len(),
{
    lemma_token_bounds(s, from);
    if token_at(s, from).kind == TokenKind::Word {
        if let Ok((name, after)) = ident_at(s, from) {
            let open = token_at(s, after);
            lemma_token_bounds(s, after);
            if open.kind == TokenKind::Open {
                lemma_literal_at_advances(s, open.end);
                if let Ok((index, close)) = literal_at(s, open.end) {
                    lemma_expected_at_advances(s, close, TokenKind::Close);
                }
            }
        }
    } else {
        lemma_literal_at_advances(s, from);
    }
}

/// A statement covers at least one character and ends within the text.
pub proof fn lemma_stmt_at_advances(s: Seq<char>, from: int)
    ensures
        stmt_at(s, from) matches Ok((_, end)) ==> 0 <= from < end <= s.len(),
{
    let first = token_at(s, from);
    lemma_token_bounds(s, from);
    match keyword_at(s, first) {
        Some(Keyword::TypeTag) => {
            if let Ok((name, after)) = ident_at(s, first.end) {
                lemma_token_bounds(s, first.end);
                lemma_expected_at_advances(s, after, TokenKind::Equals);
                if let Ok(equals) = expected_at(s, after, TokenKind::Equals) {
                    lemma_literal_at_advances(s, equals);
                }
            }
        },
        Some(Keyword::Print) => {
            lemma_expr_at_advances(s, first.end);
        },
        Some(Keyword::Test5G) => {},
        None => {
            lemma_expr_at_advances(s, from);
            if let Ok((expr, after)) = expr_at(s, from) {
                let equals = token_at(s, after);
                lemma_token_bounds(s, after);
                if !(expr is Lit) && equals.kind == TokenKind::Equals {
                    lemma_literal_at_advances(s, equals.end);
                }
            }
        },
    }
}

} // verus!
