//! What running a statement means, stated over views: the value of an
//! expression, the effect of one statement, and the effect of a sequence.

use vstd::prelude::*;
use crate::ir::{ExprView, Ident, LiteralView, StmtView};
use crate::value::{decimal, digits, push_decimal, push_digits, rendered, ValueView};

verus! {

/// The variables of a session: each declared name with the value it holds.
pub type Env = Map<Seq<char>, ValueView>;

/// Why a statement could not be run.
#[derive(Debug, PartialEq, Eq)]
pub enum RuntimeError {
    /// An expression reads a name that holds nothing.
    UndefinedVariable(Ident),
    /// An index is applied to a name that holds no array.
    NotAnArray,
    /// A position is not within `1..=len`.
    IndexOutOfBounds { index: i64, len: usize },
    /// The index and the value of an assignment do not go together.
    IncompatibleTypes,
    /// The target of an assignment is a literal.
    AssignToLiteral,
}

/// What a [`RuntimeError`] is to a contract.
pub ghost enum RuntimeErrorView {
    UndefinedVariable(Seq<char>),
    NotAnArray,
    IndexOutOfBounds { index: i64, len: nat },
    IncompatibleTypes,
    AssignToLiteral,
}

impl View for RuntimeError {
    type V = RuntimeErrorView;

    open spec fn view(&self) -> RuntimeErrorView {
        match self {
            RuntimeError::UndefinedVariable(ident) => RuntimeErrorView::UndefinedVariable(ident@),
            RuntimeError::NotAnArray => RuntimeErrorView::NotAnArray,
            RuntimeError::IndexOutOfBounds { index, len } => RuntimeErrorView::IndexOutOfBounds {
                index: *index,
                len: *len as nat,
            },
            RuntimeError::IncompatibleTypes => RuntimeErrorView::IncompatibleTypes,
            RuntimeError::AssignToLiteral => RuntimeErrorView::AssignToLiteral,
        }
    }
}

impl Clone for RuntimeError {
    fn clone(&self) -> (copy: RuntimeError)
        ensures
            copy@ == self@,
    {
        match self {
            RuntimeError::UndefinedVariable(ident) => RuntimeError::UndefinedVariable(
                ident.clone(),
            ),
            RuntimeError::NotAnArray => RuntimeError::NotAnArray,
            RuntimeError::IndexOutOfBounds { index, len } => RuntimeError::IndexOutOfBounds {
                index: *index,
                len: *len,
            },
            RuntimeError::IncompatibleTypes => RuntimeError::IncompatibleTypes,
            RuntimeError::AssignToLiteral => RuntimeError::AssignToLiteral,
        }
    }
}

/// The text that tells a user of `error`.
pub open spec fn runtime_error_text(error: RuntimeErrorView) -> Seq<char> {
    match error {
        RuntimeErrorView::UndefinedVariable(name) => "undefined variable: "@ + name,
        RuntimeErrorView::NotAnArray => "indexing non-array"@,
        RuntimeErrorView::IndexOutOfBounds { index, len } => "index "@ + decimal(index as int)
            + " out of bounds "@ + digits(len),
        RuntimeErrorView::IncompatibleTypes => "incompatible types"@,
        RuntimeErrorView::AssignToLiteral => "cannot assign value to literal"@,
    }
}

impl RuntimeError {
    /// The text that tells a user of this error.
    pub fn to_string(&self) -> (text: String)
        ensures
            text@ == runtime_error_text(self@),
    {
        match self {
            RuntimeError::UndefinedVariable(ident) => {
                let mut text = "undefined variable: ".to_owned();
                text.append(ident.0.as_str());
                text
            },
            RuntimeError::NotAnArray => "indexing non-array".to_owned(),
            RuntimeError::IndexOutOfBounds { index, len } => {
                let mut text = "index ".to_owned();
                push_decimal(&mut text, *index);
                text.append(" out of bounds ");
                push_digits(&mut text, *len as u64);
                text
            },
            RuntimeError::IncompatibleTypes => "incompatible types".to_owned(),
            RuntimeError::AssignToLiteral => "cannot assign value to literal".to_owned(),
        }
    }
}

/// `n` zeros; none where `n` is not positive.
pub open spec fn zeros(n: int) -> Seq<i64> {
    Seq::new(
        if n > 0 {
            n as nat
        } else {
            0
        },
        |i: int| 0i64,
    )
}

/// The value that a literal stands for.
pub open spec fn literal_value(literal: LiteralView) -> ValueView {
    match literal {
        LiteralView::Number(n) => ValueView::Scalar(n),
        LiteralView::Array(items) => ValueView::Array(items),
        LiteralView::ArrayByLength(n) => ValueView::Array(zeros(n as int)),
    }
}

/// Positions count from 1: `position` names an element of an array of `len`
/// elements.
pub open spec fn in_bounds(position: i64, len: nat) -> bool {
    1 <= position <= len
}

/// The index of the first of `positions`, at or after `from`, that is out of
/// bounds for an array of `len` elements; `positions.len()` where none is.
pub open spec fn first_out_of_bounds(positions: Seq<i64>, len: nat, from: int) -> int
    decreases positions.len() - from,
{
    if 0 <= from < positions.len() && in_bounds(positions[from], len) {
        first_out_of_bounds(positions, len, from + 1)
    } else {
        from
    }
}

/// The elements of `array` at `positions`, in the order of `positions`.
pub open spec fn gathered(array: Seq<i64>, positions: Seq<i64>) -> Seq<i64> {
    Seq::new(positions.len(), |k: int| array[positions[k] - 1])
}

/// `array` after `n` was written at each of `positions`, in their order.
pub open spec fn written(array: Seq<i64>, positions: Seq<i64>, n: i64) -> Seq<i64>
    decreases positions.len(),
{
    if positions.len() == 0 {
        array
    } else {
        written(array, positions.drop_last(), n).update(positions.last() - 1, n)
    }
}

/// The out-of-bounds error for `index` on an array of `len` elements.
pub open spec fn out_of_bounds(index: i64, len: nat) -> RuntimeErrorView {
    RuntimeErrorView::IndexOutOfBounds { index, len }
}

/// Reading `array` at `index`. A scalar 0 reads the whole array, another
/// scalar reads the element at that position, and an array of positions
/// gathers their elements. The first position out of bounds is the error.
pub open spec fn indexed(array: Seq<i64>, index: ValueView) -> Result<
    ValueView,
    RuntimeErrorView,
> {
    match index {
        ValueView::Scalar(i) => {
            if i == 0 {
                Ok(ValueView::Array(array))
            } else if in_bounds(i, array.len()) {
                Ok(ValueView::Scalar(array[i - 1]))
            } else {
                Err(out_of_bounds(i, array.len()))
            }
        },
        ValueView::Array(positions) => {
            let k = first_out_of_bounds(positions, array.len(), 0);
            if k >= positions.len() {
                Ok(ValueView::Array(gathered(array, positions)))
            } else {
                Err(out_of_bounds(positions[k], array.len()))
            }
        },
    }
}

/// The value of an expression in `env`, or the error that reading it gives.
pub open spec fn value_of(env: Env, expr: ExprView) -> Result<ValueView, RuntimeErrorView> {
    match expr {
        ExprView::Lit(literal) => Ok(literal_value(literal)),
        ExprView::Ident(name) => {
            if env.contains_key(name) {
                Ok(env[name])
            } else {
                Err(RuntimeErrorView::UndefinedVariable(name))
            }
        },
        ExprView::Index(name, index) => {
            if !env.contains_key(name) {
                Err(RuntimeErrorView::UndefinedVariable(name))
            } else {
                match env[name] {
                    ValueView::Scalar(_) => Err(RuntimeErrorView::NotAnArray),
                    ValueView::Array(array) => indexed(array, literal_value(index)),
                }
            }
        },
    }
}

/// An array after an indexed assignment, and the error if there was one.
pub ghost struct Stored {
    pub array: Seq<i64>,
    pub error: Option<RuntimeErrorView>,
}

/// Writing `value` to `array` at `index`. Only a scalar can be written. At
/// scalar index 0 it fills the array, at another scalar index it replaces one
/// element. With an array of positions it is written to each in turn, up to
/// the first that is out of bounds: what was written before that one stays.
pub open spec fn stored(array: Seq<i64>, index: ValueView, value: ValueView) -> Stored {
    match (index, value) {
        (ValueView::Scalar(i), ValueView::Scalar(n)) => {
            if i == 0 {
                Stored { array: Seq::new(array.len(), |p: int| n), error: None }
            } else if in_bounds(i, array.len()) {
                Stored { array: array.update(i - 1, n), error: None }
            } else {
                Stored { array, error: Some(out_of_bounds(i, array.len())) }
            }
        },
        (ValueView::Array(positions), ValueView::Scalar(n)) => {
            let k = first_out_of_bounds(positions, array.len(), 0);
            Stored {
                array: written(array, positions.take(k), n),
                error: if k >= positions.len() {
                    None
                } else {
                    Some(out_of_bounds(positions[k], array.len()))
                },
            }
        },
        _ => Stored { array, error: Some(RuntimeErrorView::IncompatibleTypes) },
    }
}

/// The line that the special command emits.
pub open spec fn test5g_response() -> Seq<char> {
    "很残念，你的电脑并没有配备 5G 芯片。"@
}

/// What one statement does: the variables after it, the line it emits if it
/// emits one, and the error if it fails.
pub ghost struct Step {
    pub env: Env,
    pub line: Option<Seq<char>>,
    pub error: Option<RuntimeErrorView>,
}

/// The effect of `stmt` on `env`.
///
/// A declaration and an assignment to a whole variable bind the name
/// unconditionally. An indexed assignment needs the name to hold an array,
/// and leaves in it what [`stored`] gives, also when it fails. Printing reads
/// the expression and changes nothing.
pub open spec fn step(env: Env, stmt: StmtView) -> Step {
    match stmt {
        StmtView::Decl(name, literal) => Step {
            env: env.insert(name, literal_value(literal)),
            line: None,
            error: None,
        },
        StmtView::Assign(target, literal) => match target {
            ExprView::Lit(_) => Step {
                env,
                line: None,
                error: Some(RuntimeErrorView::AssignToLiteral),
            },
            ExprView::Ident(name) => Step {
                env: env.insert(name, literal_value(literal)),
                line: None,
                error: None,
            },
            ExprView::Index(name, index) => {
                if env.contains_key(name) && env[name] is Array {
                    let outcome = stored(
                        env[name]->Array_0,
                        literal_value(index),
                        literal_value(literal),
                    );
                    Step {
                        env: env.insert(name, ValueView::Array(outcome.array)),
                        line: None,
                        error: outcome.error,
                    }
                } else {
                    Step { env, line: None, error: Some(RuntimeErrorView::NotAnArray) }
                }
            },
        },
        StmtView::Print(expr) => match value_of(env, expr) {
            Ok(value) => Step { env, line: Some(rendered(value)), error: None },
            Err(error) => Step { env, line: None, error: Some(error) },
        },
        StmtView::Test5G => Step { env, line: Some(test5g_response()), error: None },
    }
}

/// The lines that a statement adds to the output: its line, if it has one.
pub open spec fn emitted(line: Option<Seq<char>>) -> Seq<Seq<char>> {
    match line {
        Some(text) => seq![text],
        None => Seq::empty(),
    }
}

/// What a sequence of statements does: the variables after it, the lines it
/// emits, and the error that stopped it, if one did.
pub ghost struct Run {
    pub env: Env,
    pub output: Seq<Seq<char>>,
    pub error: Option<RuntimeErrorView>,
}

/// The effect of running `stmts` in order on `env`. The first statement that
/// fails ends the run: the effects of the statements before it stay, and so
/// does what the failing statement itself did to the variables.
pub open spec fn run(env: Env, stmts: Seq<StmtView>) -> Run
    decreases stmts.len(),
{
    if stmts.len() == 0 {
        Run { env, output: Seq::empty(), error: None }
    } else {
        let first = step(env, stmts[0]);
        if first.error is Some {
            Run { env: first.env, output: Seq::empty(), error: first.error }
        } else {
            let rest = run(first.env, stmts.drop_first());
            Run { env: rest.env, output: emitted(first.line) + rest.output, error: rest.error }
        }
    }
}

} // verus!
