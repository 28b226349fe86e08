use helang::grammar::{SyntaxError, SyntaxErrorKind};
use helang::ir::{Expr, Ident, Literal, Stmt};
use helang::parser::parse;

fn ident(name: &str) -> Ident {
    Ident(name.to_string())
}

fn error(kind: SyntaxErrorKind, start: usize, end: usize) -> Result<Vec<Stmt>, SyntaxError> {
    Err(SyntaxError { kind, start, end })
}

#[test]
fn empty_text_is_the_empty_program() {
    assert_eq!(parse(""), Ok(vec![]));
    assert_eq!(parse(" \t\r\n "), Ok(vec![]));
}

#[test]
fn declaration_of_a_scalar() {
    assert_eq!(parse("u8 b = 4"), Ok(vec![Stmt::Decl(ident("b"), Literal::Number(4))]));
}

#[test]
fn declaration_of_an_array() {
    assert_eq!(
        parse("u8 a = 1 | 2 | 3"),
        Ok(vec![Stmt::Decl(ident("a"), Literal::Array(vec![1, 2, 3]))])
    );
}

#[test]
fn declaration_of_an_array_by_length() {
    assert_eq!(
        parse("u8 zeros = [10]"),
        Ok(vec![Stmt::Decl(ident("zeros"), Literal::ArrayByLength(10))])
    );
}

#[test]
fn declaration_drops_the_type_tag() {
    let stmts = parse("u8 wide = 300").unwrap();
    assert_eq!(stmts, vec![Stmt::Decl(ident("wide"), Literal::Number(300))]);
}

#[test]
fn assignment_to_a_variable() {
    assert_eq!(
        parse("a = 3 | 4 | 5"),
        Ok(vec![Stmt::Assign(Expr::Ident(ident("a")), Literal::Array(vec![3, 4, 5]))])
    );
}

#[test]
fn assignment_to_one_position() {
    assert_eq!(
        parse("b[1] = 3"),
        Ok(vec![Stmt::Assign(
            Expr::Index(ident("b"), Literal::Number(1)),
            Literal::Number(3)
        )])
    );
}

#[test]
fn assignment_to_a_slice() {
    assert_eq!(
        parse("b[1 | 3] = 7"),
        Ok(vec![Stmt::Assign(
            Expr::Index(ident("b"), Literal::Array(vec![1, 3])),
            Literal::Number(7)
        )])
    );
}

#[test]
fn print_of_each_expression() {
    assert_eq!(parse("print a"), Ok(vec![Stmt::Print(Expr::Ident(ident("a")))]));
    assert_eq!(
        parse("print a[2 | 1]"),
        Ok(vec![Stmt::Print(Expr::Index(ident("a"), Literal::Array(vec![2, 1])))])
    );
    assert_eq!(parse("print 5"), Ok(vec![Stmt::Print(Expr::Lit(Literal::Number(5)))]));
    assert_eq!(
        parse("print [2]"),
        Ok(vec![Stmt::Print(Expr::Lit(Literal::ArrayByLength(2)))])
    );
}

#[test]
fn bare_expression_is_printed() {
    assert_eq!(parse("a"), Ok(vec![Stmt::Print(Expr::Ident(ident("a")))]));
    assert_eq!(
        parse("a[0]"),
        Ok(vec![Stmt::Print(Expr::Index(ident("a"), Literal::Number(0)))])
    );
    assert_eq!(
        parse("1 | 2"),
        Ok(vec![Stmt::Print(Expr::Lit(Literal::Array(vec![1, 2])))])
    );
}

#[test]
fn special_command() {
    assert_eq!(parse("test5g"), Ok(vec![Stmt::Test5G]));
    assert_eq!(parse("test5g test5g"), Ok(vec![Stmt::Test5G, Stmt::Test5G]));
}

#[test]
fn statements_come_out_in_source_order() {
    let source = "u8 a = 1 | 2 | 3\nu8 b = 4\na = 3 | 4 | 5\nb[1] = 3\nprint a\nprint b\n";
    assert_eq!(
        parse(source),
        Ok(vec![
            Stmt::Decl(ident("a"), Literal::Array(vec![1, 2, 3])),
            Stmt::Decl(ident("b"), Literal::Number(4)),
            Stmt::Assign(Expr::Ident(ident("a")), Literal::Array(vec![3, 4, 5])),
            Stmt::Assign(Expr::Index(ident("b"), Literal::Number(1)), Literal::Number(3)),
            Stmt::Print(Expr::Ident(ident("a"))),
            Stmt::Print(Expr::Ident(ident("b"))),
        ])
    );
}

#[test]
fn white_space_only_separates() {
    assert_eq!(parse("u8 a=1|2"), parse("  u8\ta\n=\r\n1 |\n2  "));
    assert_eq!(
        parse("a[1]=2"),
        Ok(vec![Stmt::Assign(
            Expr::Index(ident("a"), Literal::Number(1)),
            Literal::Number(2)
        )])
    );
}

#[test]
fn words_are_as_long_as_they_can_be() {
    assert_eq!(parse("printer"), Ok(vec![Stmt::Print(Expr::Ident(ident("printer")))]));
    assert_eq!(parse("u8a"), Ok(vec![Stmt::Print(Expr::Ident(ident("u8a")))]));
    assert_eq!(parse("_x1"), Ok(vec![Stmt::Print(Expr::Ident(ident("_x1")))]));
    assert_eq!(parse("Test5G"), Ok(vec![Stmt::Print(Expr::Ident(ident("Test5G")))]));
}

#[test]
fn identifiers_are_case_sensitive() {
    assert_eq!(
        parse("u8 A = 1 u8 a = 2"),
        Ok(vec![
            Stmt::Decl(ident("A"), Literal::Number(1)),
            Stmt::Decl(ident("a"), Literal::Number(2)),
        ])
    );
}

#[test]
fn numbers_at_the_ends_of_the_range() {
    assert_eq!(
        parse("9223372036854775807"),
        Ok(vec![Stmt::Print(Expr::Lit(Literal::Number(i64::MAX)))])
    );
    assert_eq!(
        parse("-9223372036854775808"),
        Ok(vec![Stmt::Print(Expr::Lit(Literal::Number(i64::MIN)))])
    );
    assert_eq!(parse("-0"), Ok(vec![Stmt::Print(Expr::Lit(Literal::Number(0)))]));
    assert_eq!(parse("007"), Ok(vec![Stmt::Print(Expr::Lit(Literal::Number(7)))]));
    assert_eq!(
        parse("000000000000000000000000012"),
        Ok(vec![Stmt::Print(Expr::Lit(Literal::Number(12)))])
    );
}

#[test]
fn negative_numbers_in_an_array() {
    assert_eq!(
        parse("u8 a = -1 | 2 | -3"),
        Ok(vec![Stmt::Decl(ident("a"), Literal::Array(vec![-1, 2, -3]))])
    );
}

#[test]
fn number_out_of_range() {
    assert_eq!(parse("9223372036854775808"), error(SyntaxErrorKind::NumberOutOfRange, 0, 19));
    assert_eq!(parse("-9223372036854775809"), error(SyntaxErrorKind::NumberOutOfRange, 0, 20));
    assert_eq!(
        parse("u8 a = 1 | 99999999999999999999999999"),
        error(SyntaxErrorKind::NumberOutOfRange, 11, 37)
    );
    assert_eq!(
        parse("print a[18446744073709551616]"),
        error(SyntaxErrorKind::NumberOutOfRange, 8, 28)
    );
}

#[test]
fn malformed_tokens() {
    assert_eq!(parse("12abc"), error(SyntaxErrorKind::MalformedToken, 0, 5));
    assert_eq!(parse("u8 a = -"), error(SyntaxErrorKind::MalformedToken, 7, 8));
    assert_eq!(parse("u8 a = - 1"), error(SyntaxErrorKind::MalformedToken, 7, 8));
    assert_eq!(parse("print a;"), error(SyntaxErrorKind::MalformedToken, 7, 8));
    assert_eq!(parse("u8 a = 1.5"), error(SyntaxErrorKind::MalformedToken, 8, 9));
    assert_eq!(parse("@"), error(SyntaxErrorKind::MalformedToken, 0, 1));
}

#[test]
fn positions_count_characters() {
    assert_eq!(parse("print 1 \u{5f88}"), error(SyntaxErrorKind::MalformedToken, 8, 9));
    assert_eq!(parse("\u{5f88}\u{6b8b}"), error(SyntaxErrorKind::MalformedToken, 0, 1));
    assert_eq!(parse("u8 \u{e9}"), error(SyntaxErrorKind::MalformedToken, 3, 4));
    assert_eq!(
        parse("u8 name = 1\nprint name[2] \u{5f88}"),
        error(SyntaxErrorKind::MalformedToken, 26, 27)
    );
}

#[test]
fn unexpected_tokens() {
    assert_eq!(parse("= 3"), error(SyntaxErrorKind::UnexpectedToken, 0, 1));
    assert_eq!(parse("5 = 3"), error(SyntaxErrorKind::UnexpectedToken, 2, 3));
    assert_eq!(parse("u8 = 3"), error(SyntaxErrorKind::UnexpectedToken, 3, 4));
    assert_eq!(parse("u8 u8 = 3"), error(SyntaxErrorKind::UnexpectedToken, 3, 5));
    assert_eq!(parse("u8 print = 3"), error(SyntaxErrorKind::UnexpectedToken, 3, 8));
    assert_eq!(parse("u8 a 3"), error(SyntaxErrorKind::UnexpectedToken, 5, 6));
    assert_eq!(parse("a = b"), error(SyntaxErrorKind::UnexpectedToken, 4, 5));
    assert_eq!(parse("a[b] = 1"), error(SyntaxErrorKind::UnexpectedToken, 2, 3));
    assert_eq!(parse("a[1 = 1"), error(SyntaxErrorKind::UnexpectedToken, 4, 5));
    assert_eq!(parse("print print"), error(SyntaxErrorKind::UnexpectedToken, 6, 11));
    assert_eq!(parse("print ]"), error(SyntaxErrorKind::UnexpectedToken, 6, 7));
    assert_eq!(parse("1 | | 2"), error(SyntaxErrorKind::UnexpectedToken, 4, 5));
    assert_eq!(parse("[1 | 2]"), error(SyntaxErrorKind::UnexpectedToken, 3, 4));
}

#[test]
fn unterminated_statements() {
    assert_eq!(parse("u8"), error(SyntaxErrorKind::UnexpectedEnd, 2, 2));
    assert_eq!(parse("u8 a"), error(SyntaxErrorKind::UnexpectedEnd, 4, 4));
    assert_eq!(parse("u8 a ="), error(SyntaxErrorKind::UnexpectedEnd, 6, 6));
    assert_eq!(parse("u8 a = 1 |"), error(SyntaxErrorKind::UnexpectedEnd, 10, 10));
    assert_eq!(parse("u8 a = 1 |  "), error(SyntaxErrorKind::UnexpectedEnd, 12, 12));
    assert_eq!(parse("u8 a = [3"), error(SyntaxErrorKind::UnexpectedEnd, 9, 9));
    assert_eq!(parse("print"), error(SyntaxErrorKind::UnexpectedEnd, 5, 5));
    assert_eq!(parse("a["), error(SyntaxErrorKind::UnexpectedEnd, 2, 2));
    assert_eq!(parse("a[1"), error(SyntaxErrorKind::UnexpectedEnd, 3, 3));
    assert_eq!(parse("a ="), error(SyntaxErrorKind::UnexpectedEnd, 3, 3));
}

#[test]
fn first_error_wins_and_no_statement_comes_out() {
    assert_eq!(
        parse("u8 a = 1\nprint a\nu8 = 2\nprint @"),
        error(SyntaxErrorKind::UnexpectedToken, 20, 21)
    );
}

#[test]
fn parser_checks_no_meaning() {
    assert_eq!(
        parse("print never_declared[0 | -5]"),
        Ok(vec![Stmt::Print(Expr::Index(
            ident("never_declared"),
            Literal::Array(vec![0, -5])
        ))])
    );
    assert_eq!(
        parse("x[1 | 2] = 3 | 4"),
        Ok(vec![Stmt::Assign(
            Expr::Index(ident("x"), Literal::Array(vec![1, 2])),
            Literal::Array(vec![3, 4])
        )])
    );
}

#[test]
fn index_can_be_an_array_by_length() {
    assert_eq!(
        parse("a[[2]]"),
        Ok(vec![Stmt::Print(Expr::Index(ident("a"), Literal::ArrayByLength(2)))])
    );
}

#[test]
fn expression_followed_by_a_statement() {
    assert_eq!(
        parse("a b = 1 3 c[1]"),
        Ok(vec![
            Stmt::Print(Expr::Ident(ident("a"))),
            Stmt::Assign(Expr::Ident(ident("b")), Literal::Number(1)),
            Stmt::Print(Expr::Lit(Literal::Number(3))),
            Stmt::Print(Expr::Index(ident("c"), Literal::Number(1))),
        ])
    );
}

#[test]
fn adjacent_numbers_are_separate_tokens() {
    assert_eq!(
        parse("1-2"),
        Ok(vec![
            Stmt::Print(Expr::Lit(Literal::Number(1))),
            Stmt::Print(Expr::Lit(Literal::Number(-2))),
        ])
    );
}

#[test]
fn error_covers_the_offending_token() {
    let source = "u8 a = 12abc_9 3";
    let error = parse(source).unwrap_err();
    assert_eq!(error.kind, SyntaxErrorKind::MalformedToken);
    assert_eq!(&source[error.start..error.end], "12abc_9");
    let source = "print -x";
    let error = parse(source).unwrap_err();
    assert_eq!(error.kind, SyntaxErrorKind::MalformedToken);
    assert_eq!(&source[error.start..error.end], "-x");
    let source = "u8 test5g = 1";
    let error = parse(source).unwrap_err();
    assert_eq!(error.kind, SyntaxErrorKind::UnexpectedToken);
    assert_eq!(&source[error.start..error.end], "test5g");
}
