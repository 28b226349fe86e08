//! The parser: reads a source text as the grammar says.

use vstd::prelude::*;
use crate::grammar::{
    assign_stmt_at, decl_stmt_at, expected_at, expr_at, expr_stmt_at, ident_at, keyword_at,
    literal_at, number_at, numbers_after, print_stmt_at, program, stmt_at, stmts_from, text_of,
    unexpected, Keyword, SyntaxError, SyntaxErrorKind,
};
use crate::ir::{stmt_views, Expr, Ident, Literal, Stmt, StmtView};
use crate::lexer::{
    all_digits, digits_value, is_digit, lemma_digits_value_grows, lemma_run_end, token_at,
    CharClass, Source, Token, TokenKind,
};

verus! {

/// Whether what was read is what the grammar gives: the same value, ending
/// at the same place, or the same error.
pub open spec fn reads_as<T: View>(
    result: Result<(T, usize), SyntaxError>,
    expected: Result<(T::V, int), SyntaxError>,
) -> bool {
    match result {
        Ok((value, end)) => expected == Ok::<(T::V, int), SyntaxError>((value@, end as int)),
        Err(error) => expected == Err::<(T::V, int), SyntaxError>(error),
    }
}

/// Whether what was read ends after `from` and within the text.
pub open spec fn advances<T>(
    result: Result<(T, usize), SyntaxError>,
    from: usize,
    len: nat,
) -> bool {
    result matches Ok((_, end)) ==> from < end <= len
}

/// Whether the statements that were read are the program that the grammar
/// gives, or the error is the one that it gives.
pub open spec fn parses_as(
    result: Result<Vec<Stmt>, SyntaxError>,
    expected: Result<Seq<StmtView>, SyntaxError>,
) -> bool {
    match result {
        Ok(stmts) => expected == Ok::<Seq<StmtView>, SyntaxError>(stmt_views(stmts@)),
        Err(error) => expected == Err::<Seq<StmtView>, SyntaxError>(error),
    }
}

fn unexpected_token(token: Token) -> (error: SyntaxError)
    ensures
        error == unexpected(token@),
{
    let kind = match token.kind {
        TokenKind::Malformed => SyntaxErrorKind::MalformedToken,
        TokenKind::End => SyntaxErrorKind::UnexpectedEnd,
        _ => SyntaxErrorKind::UnexpectedToken,
    };
    SyntaxError { kind, start: token.start, end: token.end }
}

fn expect(src: &Source, from: usize, kind: TokenKind) -> (result: Result<usize, SyntaxError>)
    requires
        from <= src@.len(),
        kind != TokenKind::End,
    ensures
        match result {
            Ok(end) => expected_at(src@, from as int, kind) == Ok::<int, SyntaxError>(end as int)
                && from < end <= src@.len(),
            Err(error) => expected_at(src@, from as int, kind) == Err::<int, SyntaxError>(error),
        },
{
    let token = src.token(from);
    if token.kind == kind {
        Ok(token.end)
    } else {
        Err(unexpected_token(token))
    }
}

fn keyword(src: &Source, token: Token) -> (found: Option<Keyword>)
    requires
        token.start <= token.end <= src@.len(),
    ensures
        found == keyword_at(src@, token@),
{
    if token.kind != TokenKind::Word {
        return None;
    }
    let start = token.start;
    let len = token.end - token.start;
    let ghost word = text_of(src@, token@);
    if len == 2 && src.char_at(start) == 'u' && src.char_at(start + 1) == '8' {
        assert(word =~= seq!['u', '8']);
        Some(Keyword::TypeTag)
    } else if len == 5 && src.char_at(start) == 'p' && src.char_at(start + 1) == 'r' && src.char_at(
        start + 2,
    ) == 'i' && src.char_at(start + 3) == 'n' && src.char_at(start + 4) == 't' {
        assert(word =~= seq!['p', 'r', 'i', 'n', 't']);
        Some(Keyword::Print)
    } else if len == 6 && src.char_at(start) == 't' && src.char_at(start + 1) == 'e' && src.char_at(
        start + 2,
    ) == 's' && src.char_at(start + 3) == 't' && src.char_at(start + 4) == '5' && src.char_at(
        start + 5,
    ) == 'g' {
        assert(word =~= seq!['t', 'e', 's', 't', '5', 'g']);
        Some(Keyword::Test5G)
    } else {
        proof {
            let a = seq!['u', '8'];
            let b = seq!['p', 'r', 'i', 'n', 't'];
            let c = seq!['t', 'e', 's', 't', '5', 'g'];
            if word == a {
                assert(word.len() == 2 && word[0] == 'u' && word[1] == '8');
            }
            if word == b {
                assert(word.len() == 5 && word[0] == 'p' && word[1] == 'r' && word[2] == 'i'
                    && word[3] == 'n' && word[4] == 't');
            }
            if word == c {
                assert(word.len() == 6 && word[0] == 't' && word[1] == 'e' && word[2] == 's'
                    && word[3] == 't' && word[4] == '5' && word[5] == 'g');
            }
        }
        None
    }
}

#[verifier::loop_isolation(false)]
fn parse_number(src: &Source, from: usize) -> (result: Result<(i64, usize), SyntaxError>)
    requires
        from <= src@.len(),
    ensures
        reads_as(result, number_at(src@, from as int)),
        advances(result, from, src@.len()),
{
    let token = src.token(from);
    if token.kind != TokenKind::Number {
        return Err(unexpected_token(token));
    }
    let negative = src.char_at(token.start) == '-';
    let first: usize = if negative {
        token.start + 1
    } else {
        token.start
    };
    let limit: u64 = if negative {
        9223372036854775808
    } else {
        9223372036854775807
    };
    let ghost text = text_of(src@, token@);
    let ghost digits = src@.subrange(first as int, token.end as int);
    proof {
        lemma_run_end(src@, first as int, CharClass::Digit);
        assert(all_digits(digits));
        if negative {
            assert(text.skip(1) =~= digits);
        } else {
            assert(text =~= digits);
        }
    }
    let mut magnitude: u64 = 0;
    let mut i: usize = first;
    while i < token.end
        invariant
            first <= i <= token.end <= src@.len(),
            digits == src@.subrange(first as int, token.end as int),
            all_digits(digits),
            magnitude == digits_value(digits.take(i - first)),
            magnitude <= limit,
            limit <= 9223372036854775808,
        decreases token.end - i,
    {
        let c = src.char_at(i);
        assert(is_digit(digits[i - first]));
        let d: u64 = (c as u32 - 48) as u64;
        proof {
            let longer = digits.take(i - first + 1);
            assert(longer.drop_last() =~= digits.take(i - first));
            assert(longer.last() == c);
            assert(digits_value(longer) == 10 * magnitude + d);
            lemma_digits_value_grows(digits, i - first + 1);
        }
        if magnitude > (limit - d) / 10 {
            return Err(
                SyntaxError {
                    kind: SyntaxErrorKind::NumberOutOfRange,
                    start: token.start,
                    end: token.end,
                },
            );
        }
        magnitude = magnitude * 10 + d;
        i += 1;
    }
    assert(digits.take(i - first) =~= digits);
    let n: i64 = if negative {
        if magnitude == 9223372036854775808 {
            i64::MIN
        } else {
            -(magnitude as i64)
        }
    } else {
        magnitude as i64
    };
    Ok((n, token.end))
}

#[verifier::loop_isolation(false)]
fn parse_literal(src: &Source, from: usize) -> (result: Result<(Literal, usize), SyntaxError>)
    requires
        from <= src@.len(),
    ensures
        reads_as(result, literal_at(src@, from as int)),
        advances(result, from, src@.len()),
{
    let first = src.token(from);
    if first.kind == TokenKind::Open {
        let (n, after) = match parse_number(src, first.end) {
            Ok(read) => read,
            Err(error) => {
                return Err(error);
            },
        };
        match expect(src, after, TokenKind::Close) {
            Ok(end) => Ok((Literal::ArrayByLength(n), end)),
            Err(error) => Err(error),
        }
    } else {
        let (n, after) = match parse_number(src, from) {
            Ok(read) => read,
            Err(error) => {
                return Err(error);
            },
        };
        let mut items: Vec<i64> = Vec::new();
        items.push(n);
        assert(items@ =~= seq![n]);
        let mut end = after;
        let mut bar = src.token(end);
        while bar.kind == TokenKind::Bar
            invariant
                    from < end <= src@.len(),
                bar@ == token_at(src@, end as int),
                end <= bar.start <= bar.end <= src@.len(),
                bar.kind != TokenKind::End ==> bar.start < bar.end,
                items@.len() >= 1,
                items@[0] == n,
                numbers_after(src@, after as int, seq![n]) == numbers_after(
                    src@,
                    end as int,
                    items@,
                ),
            decreases src@.len() - end,
        {
            match parse_number(src, bar.end) {
                Ok((m, next)) => {
                    items.push(m);
                    end = next;
                },
                Err(error) => {
                    return Err(error);
                },
            }
            bar = src.token(end);
        }
        if items.len() == 1 {
            Ok((Literal::Number(n), end))
        } else {
            Ok((Literal::Array(items), end))
        }
    }
}

fn parse_ident(src: &Source, from: usize) -> (result: Result<(Ident, usize), SyntaxError>)
    requires
        from <= src@.len(),
    ensures
        reads_as(result, ident_at(src@, from as int)),
        advances(result, from, src@.len()),
{
    let token = src.token(from);
    if token.kind == TokenKind::Word && keyword(src, token).is_none() {
        Ok((Ident(src.slice(token.start, token.end)), token.end))
    } else {
        Err(unexpected_token(token))
    }
}

fn parse_expr(src: &Source, from: usize) -> (result: Result<(Expr, usize), SyntaxError>)
    requires
        from <= src@.len(),
    ensures
        reads_as(result, expr_at(src@, from as int)),
        advances(result, from, src@.len()),
{
    if src.token(from).kind == TokenKind::Word {
        let (ident, after) = match parse_ident(src, from) {
            Ok(read) => read,
            Err(error) => {
                return Err(error);
            },
        };
        let open = src.token(after);
        if open.kind == TokenKind::Open {
            let (index, close) = match parse_literal(src, open.end) {
                Ok(read) => read,
                Err(error) => {
                    return Err(error);
                },
            };
            match expect(src, close, TokenKind::Close) {
                Ok(end) => Ok((Expr::Index(ident, index), end)),
                Err(error) => Err(error),
            }
        } else {
            Ok((Expr::Ident(ident), after))
        }
    } else {
        match parse_literal(src, from) {
            Ok((literal, end)) => Ok((Expr::Lit(literal), end)),
            Err(error) => Err(error),
        }
    }
}

fn parse_decl_stmt(src: &Source, from: usize) -> (result: Result<(Stmt, usize), SyntaxError>)
    requires
        from <= src@.len(),
    ensures
        reads_as(result, decl_stmt_at(src@, from as int)),
        advances(result, from, src@.len()),
{
    let (ident, after) = match parse_ident(src, from) {
        Ok(read) => read,
        Err(error) => {
            return Err(error);
        },
    };
    let equals = match expect(src, after, TokenKind::Equals) {
        Ok(end) => end,
        Err(error) => {
            return Err(error);
        },
    };
    match parse_literal(src, equals) {
        Ok((literal, end)) => Ok((Stmt::Decl(ident, literal), end)),
        Err(error) => Err(error),
    }
}

fn parse_assign_stmt(src: &Source, target: Expr, from: usize) -> (result: Result<
    (Stmt, usize),
    SyntaxError,
>)
    requires
        from <= src@.len(),
    ensures
        reads_as(result, assign_stmt_at(src@, target@, from as int)),
        advances(result, from, src@.len()),
{
    match parse_literal(src, from) {
        Ok((literal, end)) => Ok((Stmt::Assign(target, literal), end)),
        Err(error) => Err(error),
    }
}

fn parse_print_stmt(src: &Source, from: usize) -> (result: Result<(Stmt, usize), SyntaxError>)
    requires
        from <= src@.len(),
    ensures
        reads_as(result, print_stmt_at(src@, from as int)),
        advances(result, from, src@.len()),
{
    match parse_expr(src, from) {
        Ok((expr, end)) => Ok((Stmt::Print(expr), end)),
        Err(error) => Err(error),
    }
}

fn parse_expr_stmt(src: &Source, from: usize) -> (result: Result<(Stmt, usize), SyntaxError>)
    requires
        from <= src@.len(),
    ensures
        reads_as(result, expr_stmt_at(src@, from as int)),
        advances(result, from, src@.len()),
{
    let (expr, after) = match parse_expr(src, from) {
        Ok(read) => read,
        Err(error) => {
            return Err(error);
        },
    };
    let equals = src.token(after);
    let is_target = match &expr {
        Expr::Lit(_) => false,
        _ => true,
    };
    if is_target && equals.kind == TokenKind::Equals {
        parse_assign_stmt(src, expr, equals.end)
    } else {
        Ok((Stmt::Print(expr), after))
    }
}

fn parse_stmt(src: &Source, from: usize) -> (result: Result<(Stmt, usize), SyntaxError>)
    requires
        from <= src@.len(),
    ensures
        reads_as(result, stmt_at(src@, from as int)),
        advances(result, from, src@.len()),
{
    let first = src.token(from);
    match keyword(src, first) {
        Some(Keyword::TypeTag) => parse_decl_stmt(src, first.end),
        Some(Keyword::Print) => parse_print_stmt(src, first.end),
        Some(Keyword::Test5G) => Ok((Stmt::Test5G, first.end)),
        None => parse_expr_stmt(src, from),
    }
}

/// Reads `source` as a program: its statements in order. A text that is no
/// program gives the first error, and no statement.
pub fn parse(source: &str) -> (result: Result<Vec<Stmt>, SyntaxError>)
    ensures
        parses_as(result, program(source@)),
{
    let src = Source::new(source);
    let mut stmts: Vec<Stmt> = Vec::new();
    let mut from: usize = 0;
    assert(stmt_views(stmts@) =~= Seq::<StmtView>::empty());
    while src.token(from).kind != TokenKind::End
        invariant
            src@ == source@,
            from <= src@.len(),
            program(source@) == stmts_from(src@, from as int, stmt_views(stmts@)),
        decreases src@.len() - from,
    {
        match parse_stmt(&src, from) {
            Ok((stmt, end)) => {
                assert(stmt_views(stmts@.push(stmt)) =~= stmt_views(stmts@).push(stmt@));
                stmts.push(stmt);
                from = end;
            },
            Err(error) => {
                return Err(error);
            },
        }
    }
    Ok(stmts)
}

} // verus!
