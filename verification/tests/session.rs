use helang::grammar::{SyntaxError, SyntaxErrorKind};
use helang::interpreter::Interpreter;
use helang::ir::{Expr, Ident};
use helang::semantics::RuntimeError;
use helang::session::{respond, Error};
use helang::value::Value;

#[test]
fn respond_runs_a_program() {
    let mut interpreter = Interpreter::new();
    assert_eq!(respond("u8 a = 1 | 2 | 3\nprint a[3 | 1]", &mut interpreter), Ok(()));
    assert_eq!(interpreter.take_output(), vec!["3 | 1".to_string()]);
}

#[test]
fn respond_to_a_text_that_is_no_program_changes_nothing() {
    let mut interpreter = Interpreter::new();
    respond("u8 a = 1", &mut interpreter).unwrap();
    assert_eq!(
        respond("u8 a = 2\nprint a\nprint", &mut interpreter),
        Err(Error::Syntax(SyntaxError { kind: SyntaxErrorKind::UnexpectedEnd, start: 22, end: 22 }))
    );
    assert!(interpreter.take_output().is_empty());
    assert_eq!(
        interpreter.eval_expr(Expr::Ident(Ident("a".to_string()))),
        Ok(Value::Scalar(1))
    );
}

#[test]
fn respond_reports_the_failing_statement() {
    let mut interpreter = Interpreter::new();
    assert_eq!(
        respond("u8 a = 2\nprint a\nprint a[1]\nprint a", &mut interpreter),
        Err(Error::Runtime(RuntimeError::NotAnArray))
    );
    assert_eq!(interpreter.take_output(), vec!["2".to_string()]);
}

#[test]
fn session_goes_on_after_an_error() {
    let mut interpreter = Interpreter::new();
    respond("u8 a = 1 | 2", &mut interpreter).unwrap();
    assert!(respond("print b", &mut interpreter).is_err());
    assert!(respond("a[", &mut interpreter).is_err());
    assert_eq!(respond("a[2] = 7", &mut interpreter), Ok(()));
    assert_eq!(respond("a", &mut interpreter), Ok(()));
    assert_eq!(interpreter.take_output(), vec!["1 | 7".to_string()]);
}

#[test]
fn error_texts() {
    assert_eq!(
        Error::Syntax(SyntaxError { kind: SyntaxErrorKind::MalformedToken, start: 7, end: 8 })
            .to_string(),
        "malformed token at character 7"
    );
    assert_eq!(
        SyntaxError { kind: SyntaxErrorKind::UnexpectedToken, start: 0, end: 1 }.to_string(),
        "unexpected token at character 0"
    );
    assert_eq!(
        SyntaxError { kind: SyntaxErrorKind::UnexpectedEnd, start: 120, end: 120 }.to_string(),
        "unexpected end of input at character 120"
    );
    assert_eq!(
        SyntaxError { kind: SyntaxErrorKind::NumberOutOfRange, start: 3, end: 30 }.to_string(),
        "number out of range at character 3"
    );
    assert_eq!(
        Error::Runtime(RuntimeError::UndefinedVariable(Ident("x".to_string()))).to_string(),
        "undefined variable: x"
    );
    assert_eq!(RuntimeError::NotAnArray.to_string(), "indexing non-array");
    assert_eq!(
        RuntimeError::IndexOutOfBounds { index: -4, len: 3 }.to_string(),
        "index -4 out of bounds 3"
    );
    assert_eq!(RuntimeError::IncompatibleTypes.to_string(), "incompatible types");
    assert_eq!(RuntimeError::AssignToLiteral.to_string(), "cannot assign value to literal");
}
