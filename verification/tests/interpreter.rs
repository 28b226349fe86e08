use helang::interpreter::{Interpreter, VarRef};
use helang::ir::{Expr, Ident, Literal, Stmt};
use helang::parser::parse;
use helang::semantics::RuntimeError;
use helang::value::Value;

fn ident(name: &str) -> Ident {
    Ident(name.to_string())
}

fn run(interpreter: &mut Interpreter, source: &str) -> Result<(), RuntimeError> {
    interpreter.eval(parse(source).unwrap())
}

fn read(interpreter: &Interpreter, source: &str) -> Result<Value, RuntimeError> {
    let mut stmts = parse(source).unwrap();
    assert_eq!(stmts.len(), 1);
    match stmts.remove(0) {
        Stmt::Print(expr) => interpreter.eval_expr(expr),
        other => panic!("not an expression: {:?}", other),
    }
}

#[test]
fn new_interpreter_is_empty() {
    let mut interpreter = Interpreter::new();
    assert_eq!(
        interpreter.eval_expr(Expr::Ident(ident("a"))),
        Err(RuntimeError::UndefinedVariable(ident("a")))
    );
    assert!(interpreter.take_output().is_empty());
}

#[test]
fn array_round_trip() {
    let mut interpreter = Interpreter::new();
    run(&mut interpreter, "u8 a = 1 | 2 | 3").unwrap();
    assert_eq!(read(&interpreter, "a[0]"), Ok(Value::Array(vec![1, 2, 3])));
    assert_eq!(read(&interpreter, "a[1]"), Ok(Value::Scalar(1)));
    assert_eq!(read(&interpreter, "a[2]"), Ok(Value::Scalar(2)));
    assert_eq!(read(&interpreter, "a[3]"), Ok(Value::Scalar(3)));
    assert_eq!(
        read(&interpreter, "a[4]"),
        Err(RuntimeError::IndexOutOfBounds { index: 4, len: 3 })
    );
    assert_eq!(read(&interpreter, "a"), Ok(Value::Array(vec![1, 2, 3])));
}

#[test]
fn negative_index_is_out_of_bounds() {
    let mut interpreter = Interpreter::new();
    run(&mut interpreter, "u8 a = 1 | 2 | 3").unwrap();
    assert_eq!(
        read(&interpreter, "a[-1]"),
        Err(RuntimeError::IndexOutOfBounds { index: -1, len: 3 })
    );
    assert_eq!(
        run(&mut interpreter, "a[-9223372036854775808] = 1"),
        Err(RuntimeError::IndexOutOfBounds { index: i64::MIN, len: 3 })
    );
    assert_eq!(read(&interpreter, "a"), Ok(Value::Array(vec![1, 2, 3])));
}

#[test]
fn broadcast_write() {
    let mut interpreter = Interpreter::new();
    run(&mut interpreter, "u8 b = 1 | 2 | 3\nb[0] = 9\nprint b").unwrap();
    assert_eq!(interpreter.take_output(), vec!["9 | 9 | 9".to_string()]);
}

#[test]
fn write_to_one_position() {
    let mut interpreter = Interpreter::new();
    run(&mut interpreter, "u8 b = 1 | 2 | 3\nb[2] = 9\nprint b").unwrap();
    assert_eq!(interpreter.take_output(), vec!["1 | 9 | 3".to_string()]);
    assert_eq!(
        run(&mut interpreter, "b[4] = 9"),
        Err(RuntimeError::IndexOutOfBounds { index: 4, len: 3 })
    );
    assert_eq!(read(&interpreter, "b"), Ok(Value::Array(vec![1, 9, 3])));
}

#[test]
fn slice_read_keeps_the_requested_order() {
    let mut interpreter = Interpreter::new();
    run(&mut interpreter, "u8 b = 10 | 20 | 30").unwrap();
    assert_eq!(read(&interpreter, "b[2 | 1]"), Ok(Value::Array(vec![20, 10])));
    assert_eq!(read(&interpreter, "b[3 | 3 | 1 | 3]"), Ok(Value::Array(vec![30, 30, 10, 30])));
}

#[test]
fn slice_read_fails_on_the_first_position_out_of_bounds() {
    let mut interpreter = Interpreter::new();
    run(&mut interpreter, "u8 b = 10 | 20 | 30").unwrap();
    assert_eq!(
        read(&interpreter, "b[1 | 5 | 7]"),
        Err(RuntimeError::IndexOutOfBounds { index: 5, len: 3 })
    );
    assert_eq!(
        read(&interpreter, "b[1 | 0]"),
        Err(RuntimeError::IndexOutOfBounds { index: 0, len: 3 })
    );
}

#[test]
fn slice_write() {
    let mut interpreter = Interpreter::new();
    run(&mut interpreter, "u8 b = 1 | 2 | 3\nb[1 | 3] = 7\nprint b").unwrap();
    assert_eq!(interpreter.take_output(), vec!["7 | 2 | 7".to_string()]);
}

#[test]
fn failing_slice_write_keeps_what_it_wrote() {
    let mut interpreter = Interpreter::new();
    run(&mut interpreter, "u8 b = 1 | 2 | 3 | 4").unwrap();
    assert_eq!(
        run(&mut interpreter, "b[2 | 9 | 4] = 7"),
        Err(RuntimeError::IndexOutOfBounds { index: 9, len: 4 })
    );
    assert_eq!(read(&interpreter, "b"), Ok(Value::Array(vec![1, 7, 3, 4])));
}

#[test]
fn undefined_reference() {
    let mut interpreter = Interpreter::new();
    run(&mut interpreter, "u8 a = 1 | 2").unwrap();
    assert_eq!(
        run(&mut interpreter, "print x"),
        Err(RuntimeError::UndefinedVariable(ident("x")))
    );
    assert_eq!(
        run(&mut interpreter, "print x[1]"),
        Err(RuntimeError::UndefinedVariable(ident("x")))
    );
    assert!(interpreter.take_output().is_empty());
    assert_eq!(read(&interpreter, "a"), Ok(Value::Array(vec![1, 2])));
    assert_eq!(read(&interpreter, "x"), Err(RuntimeError::UndefinedVariable(ident("x"))));
}

#[test]
fn print_is_repeatable() {
    let mut interpreter = Interpreter::new();
    run(&mut interpreter, "u8 a = 4 | 5\nprint a").unwrap();
    let first = interpreter.take_output();
    run(&mut interpreter, "print a").unwrap();
    let second = interpreter.take_output();
    assert_eq!(first, vec!["4 | 5".to_string()]);
    assert_eq!(first, second);
}

#[test]
fn declaration_overwrites() {
    let mut interpreter = Interpreter::new();
    run(&mut interpreter, "u8 a = 5").unwrap();
    assert_eq!(read(&interpreter, "a"), Ok(Value::Scalar(5)));
    run(&mut interpreter, "u8 a = 1 | 2").unwrap();
    assert_eq!(read(&interpreter, "a"), Ok(Value::Array(vec![1, 2])));
    run(&mut interpreter, "u8 a = 6").unwrap();
    assert_eq!(read(&interpreter, "a"), Ok(Value::Scalar(6)));
}

#[test]
fn assignment_to_a_name_binds_it_unconditionally() {
    let mut interpreter = Interpreter::new();
    run(&mut interpreter, "fresh = 1 | 2").unwrap();
    assert_eq!(read(&interpreter, "fresh"), Ok(Value::Array(vec![1, 2])));
    run(&mut interpreter, "fresh = 3").unwrap();
    assert_eq!(read(&interpreter, "fresh"), Ok(Value::Scalar(3)));
}

#[test]
fn end_to_end() {
    let source = "u8 a = 1 | 2 | 3\nu8 b = 4\na = 3 | 4 | 5\nb[1] = 3\nprint a\nprint b\n";
    let mut interpreter = Interpreter::new();
    assert_eq!(run(&mut interpreter, source), Err(RuntimeError::NotAnArray));
    assert!(interpreter.take_output().is_empty());
    assert_eq!(read(&interpreter, "a"), Ok(Value::Array(vec![3, 4, 5])));
    assert_eq!(read(&interpreter, "b"), Ok(Value::Scalar(4)));
}

#[test]
fn end_to_end_with_an_array() {
    let source = "u8 a = 1 | 2 | 3\nu8 b = [1]\na = 3 | 4 | 5\nb[1] = 3\nprint a\nprint b\n";
    let mut interpreter = Interpreter::new();
    assert_eq!(run(&mut interpreter, source), Ok(()));
    assert_eq!(interpreter.take_output(), vec!["3 | 4 | 5".to_string(), "3".to_string()]);
}

#[test]
fn run_stops_at_the_first_error() {
    let mut interpreter = Interpreter::new();
    assert_eq!(
        run(&mut interpreter, "u8 a = 1\nprint a\nprint b\nu8 c = 2\nprint a"),
        Err(RuntimeError::UndefinedVariable(ident("b")))
    );
    assert_eq!(interpreter.take_output(), vec!["1".to_string()]);
    assert_eq!(read(&interpreter, "a"), Ok(Value::Scalar(1)));
    assert_eq!(read(&interpreter, "c"), Err(RuntimeError::UndefinedVariable(ident("c"))));
}

#[test]
fn indexing_a_scalar() {
    let mut interpreter = Interpreter::new();
    run(&mut interpreter, "u8 s = 4").unwrap();
    assert_eq!(read(&interpreter, "s[0]"), Err(RuntimeError::NotAnArray));
    assert_eq!(read(&interpreter, "s[1]"), Err(RuntimeError::NotAnArray));
    assert_eq!(read(&interpreter, "s[1 | 2]"), Err(RuntimeError::NotAnArray));
    assert_eq!(run(&mut interpreter, "s[1] = 3"), Err(RuntimeError::NotAnArray));
    assert_eq!(run(&mut interpreter, "s[1 | 2] = 3"), Err(RuntimeError::NotAnArray));
    assert_eq!(run(&mut interpreter, "missing[1] = 3"), Err(RuntimeError::NotAnArray));
    assert_eq!(read(&interpreter, "s"), Ok(Value::Scalar(4)));
}

#[test]
fn incompatible_types() {
    let mut interpreter = Interpreter::new();
    run(&mut interpreter, "u8 a = 1 | 2 | 3").unwrap();
    assert_eq!(run(&mut interpreter, "a[1] = 4 | 5"), Err(RuntimeError::IncompatibleTypes));
    assert_eq!(run(&mut interpreter, "a[1 | 2] = 4 | 5"), Err(RuntimeError::IncompatibleTypes));
    assert_eq!(run(&mut interpreter, "a[0] = [2]"), Err(RuntimeError::IncompatibleTypes));
    assert_eq!(read(&interpreter, "a"), Ok(Value::Array(vec![1, 2, 3])));
}

#[test]
fn a_scalar_that_is_indexed_is_no_array_whatever_is_assigned() {
    let mut interpreter = Interpreter::new();
    run(&mut interpreter, "u8 s = 4").unwrap();
    assert_eq!(run(&mut interpreter, "s[1] = 4 | 5"), Err(RuntimeError::NotAnArray));
}

#[test]
fn assignment_to_a_literal() {
    let mut interpreter = Interpreter::new();
    assert_eq!(
        interpreter.eval_stmt(Stmt::Assign(Expr::Lit(Literal::Number(1)), Literal::Number(2))),
        Err(RuntimeError::AssignToLiteral)
    );
    assert_eq!(
        interpreter.eval(vec![
            Stmt::Assign(Expr::Lit(Literal::Array(vec![1])), Literal::Number(2)),
            Stmt::Test5G,
        ]),
        Err(RuntimeError::AssignToLiteral)
    );
    assert!(interpreter.take_output().is_empty());
}

#[test]
fn array_by_length_is_zeros() {
    let mut interpreter = Interpreter::new();
    run(&mut interpreter, "u8 z = [4]\nprint z\nu8 none = [0]\nprint none\nu8 less = [-3]\nprint less")
        .unwrap();
    assert_eq!(
        interpreter.take_output(),
        vec!["0 | 0 | 0 | 0".to_string(), "".to_string(), "".to_string()]
    );
    assert_eq!(read(&interpreter, "less"), Ok(Value::Array(vec![])));
    assert_eq!(
        interpreter.eval_literal(Literal::ArrayByLength(2)),
        Ok(Value::Array(vec![0, 0]))
    );
}

#[test]
fn array_by_length_as_an_index() {
    let mut interpreter = Interpreter::new();
    run(&mut interpreter, "u8 a = 1 | 2").unwrap();
    assert_eq!(
        read(&interpreter, "a[[2]]"),
        Err(RuntimeError::IndexOutOfBounds { index: 0, len: 2 })
    );
    assert_eq!(read(&interpreter, "a[[0]]"), Ok(Value::Array(vec![])));
}

#[test]
fn printed_numbers() {
    let mut interpreter = Interpreter::new();
    run(
        &mut interpreter,
        "print 0\nprint -0\nprint 007\nprint -12\nprint 9223372036854775807\nprint -9223372036854775808\nprint 10 | -200 | 3000",
    )
    .unwrap();
    assert_eq!(
        interpreter.take_output(),
        vec![
            "0".to_string(),
            "0".to_string(),
            "7".to_string(),
            "-12".to_string(),
            "9223372036854775807".to_string(),
            "-9223372036854775808".to_string(),
            "10 | -200 | 3000".to_string(),
        ]
    );
}

#[test]
fn print_of_a_number_prints_its_decimal_text() {
    let numbers: [i64; 9] = [0, 1, -1, 9, 10, 99, -100, i64::MAX, i64::MIN];
    for n in numbers {
        let mut interpreter = Interpreter::new();
        run(&mut interpreter, &format!("print {}", n)).unwrap();
        assert_eq!(interpreter.take_output(), vec![format!("{}", n)]);
    }
}

#[test]
fn value_to_string() {
    assert_eq!(Value::Scalar(42).to_string(), "42");
    assert_eq!(Value::Scalar(-7).to_string(), "-7");
    assert_eq!(Value::Array(vec![]).to_string(), "");
    assert_eq!(Value::Array(vec![5]).to_string(), "5");
    assert_eq!(Value::Array(vec![1, -2, 30]).to_string(), "1 | -2 | 30");
}

#[test]
fn special_command_emits_its_line() {
    let mut interpreter = Interpreter::new();
    run(&mut interpreter, "u8 a = 1\ntest5g").unwrap();
    assert_eq!(
        interpreter.take_output(),
        vec!["很残念，你的电脑并没有配备 5G 芯片。".to_string()]
    );
    assert_eq!(read(&interpreter, "a"), Ok(Value::Scalar(1)));
}

#[test]
fn take_output_empties_the_buffer() {
    let mut interpreter = Interpreter::new();
    run(&mut interpreter, "print 1\nprint 2").unwrap();
    assert_eq!(interpreter.take_output(), vec!["1".to_string(), "2".to_string()]);
    assert!(interpreter.take_output().is_empty());
    run(&mut interpreter, "print 3").unwrap();
    assert_eq!(interpreter.take_output(), vec!["3".to_string()]);
}

#[test]
fn variables_last_across_calls() {
    let mut interpreter = Interpreter::new();
    run(&mut interpreter, "u8 a = 1 | 2").unwrap();
    run(&mut interpreter, "a[2] = 5").unwrap();
    run(&mut interpreter, "a").unwrap();
    assert_eq!(interpreter.take_output(), vec!["1 | 5".to_string()]);
}

#[test]
fn eval_stmt_one_at_a_time() {
    let mut interpreter = Interpreter::new();
    assert_eq!(
        interpreter.eval_stmt(Stmt::Decl(ident("v"), Literal::Array(vec![7, 8]))),
        Ok(())
    );
    assert_eq!(interpreter.eval_stmt(Stmt::Print(Expr::Ident(ident("v")))), Ok(()));
    assert_eq!(
        interpreter.eval_stmt(Stmt::Print(Expr::Ident(ident("w")))),
        Err(RuntimeError::UndefinedVariable(ident("w")))
    );
    assert_eq!(interpreter.take_output(), vec!["7 | 8".to_string()]);
}

#[test]
fn eval_var_ref_reads_each_form() {
    let mut interpreter = Interpreter::new();
    run(&mut interpreter, "u8 a = 10 | 20 | 30\nu8 s = 1").unwrap();
    assert_eq!(
        interpreter.eval_var_ref(VarRef::Ident("a".to_string())),
        Ok(Value::Array(vec![10, 20, 30]))
    );
    assert_eq!(interpreter.eval_var_ref(VarRef::Index("a".to_string(), 2)), Ok(Value::Scalar(20)));
    assert_eq!(
        interpreter.eval_var_ref(VarRef::Index("a".to_string(), 0)),
        Ok(Value::Array(vec![10, 20, 30]))
    );
    assert_eq!(
        interpreter.eval_var_ref(VarRef::Slice("a".to_string(), vec![3, 1])),
        Ok(Value::Array(vec![30, 10]))
    );
    assert_eq!(
        interpreter.eval_var_ref(VarRef::Slice("a".to_string(), vec![4])),
        Err(RuntimeError::IndexOutOfBounds { index: 4, len: 3 })
    );
    assert_eq!(
        interpreter.eval_var_ref(VarRef::Index("s".to_string(), 1)),
        Err(RuntimeError::NotAnArray)
    );
    assert_eq!(
        interpreter.eval_var_ref(VarRef::Slice("s".to_string(), vec![])),
        Err(RuntimeError::NotAnArray)
    );
    assert_eq!(
        interpreter.eval_var_ref(VarRef::Index("q".to_string(), 1)),
        Err(RuntimeError::UndefinedVariable(ident("q")))
    );
}

#[test]
fn eval_literal_never_fails() {
    let interpreter = Interpreter::new();
    assert_eq!(interpreter.eval_literal(Literal::Number(-3)), Ok(Value::Scalar(-3)));
    assert_eq!(
        interpreter.eval_literal(Literal::Array(vec![1, 2])),
        Ok(Value::Array(vec![1, 2]))
    );
    assert_eq!(interpreter.eval_literal(Literal::ArrayByLength(-1)), Ok(Value::Array(vec![])));
}

#[test]
fn names_are_case_sensitive() {
    let mut interpreter = Interpreter::new();
    run(&mut interpreter, "u8 a = 1\nu8 A = 2").unwrap();
    assert_eq!(read(&interpreter, "a"), Ok(Value::Scalar(1)));
    assert_eq!(read(&interpreter, "A"), Ok(Value::Scalar(2)));
}
