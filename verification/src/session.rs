//! One exchange of a session: a source text is parsed and, if it is a
//! program, run.

use vstd::prelude::*;
use crate::grammar::{program, syntax_error_text, SyntaxError};
use crate::interpreter::Interpreter;
use crate::parser::parse;
use crate::semantics::{run, runtime_error_text, RuntimeError, RuntimeErrorView};

verus! {

/// Why a source text could not be run to its end.
#[derive(Debug, PartialEq, Eq)]
pub enum Error {
    /// The text is no program. Nothing of it was run.
    Syntax(SyntaxError),
    /// A statement failed. The statements before it were run.
    Runtime(RuntimeError),
}

/// What an [`Error`] is to a contract.
pub ghost enum ErrorView {
    Syntax(SyntaxError),
    Runtime(RuntimeErrorView),
}

impl View for Error {
    type V = ErrorView;

    open spec fn view(&self) -> ErrorView {
        match self {
            Error::Syntax(error) => ErrorView::Syntax(*error),
            Error::Runtime(error) => ErrorView::Runtime(error@),
        }
    }
}

/// The text that tells a user of `error`.
pub open spec fn error_text(error: ErrorView) -> Seq<char> {
    match error {
        ErrorView::Syntax(error) => syntax_error_text(error),
        ErrorView::Runtime(error) => runtime_error_text(error),
    }
}

impl Error {
    /// The text that tells a user of this error.
    pub fn to_string(&self) -> (text: String)
        ensures
            text@ == error_text(self@),
    {
        match self {
            Error::Syntax(error) => error.to_string(),
            Error::Runtime(error) => error.to_string(),
        }
    }
}

/// What `source` does to a session whose variables are `env`: nothing but
/// the error if it is no program, else what running its statements does.
pub ghost struct Response {
    pub env: crate::semantics::Env,
    pub output: Seq<Seq<char>>,
    pub error: Option<ErrorView>,
}

/// The response to `source` in `env`.
pub open spec fn response(env: crate::semantics::Env, source: Seq<char>) -> Response {
    match program(source) {
        Err(error) => Response {
            env,
            output: Seq::empty(),
            error: Some(ErrorView::Syntax(error)),
        },
        Ok(stmts) => {
            let ran = run(env, stmts);
            Response {
                env: ran.env,
                output: ran.output,
                error: match ran.error {
                    Some(error) => Some(ErrorView::Runtime(error)),
                    None => None,
                },
            }
        },
    }
}

/// Parses `source` and runs it on `interpreter`. A text that is no program
/// changes nothing. A program runs up to its first failing statement, and
/// the lines it emits are added to the interpreter's output.
pub fn respond(source: &str, interpreter: &mut Interpreter) -> (result: Result<(), Error>)
    ensures
        final(interpreter).env() == response(old(interpreter).env(), source@).env,
        final(interpreter).output() == old(interpreter).output() + response(
            old(interpreter).env(),
            source@,
        ).output,
        match result {
            Ok(()) => response(old(interpreter).env(), source@).error is None,
            Err(error) => response(old(interpreter).env(), source@).error == Some(error@),
        },
{
    match parse(source) {
        Ok(stmts) => match interpreter.eval(stmts) {
            Ok(()) => Ok(()),
            Err(error) => Err(Error::Runtime(error)),
        },
        Err(error) => {
            assert(interpreter.output() + Seq::<Seq<char>>::empty() =~= interpreter.output());
            Err(Error::Syntax(error))
        },
    }
}

} // verus!
