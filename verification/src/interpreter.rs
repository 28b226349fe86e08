//! The interpreter: a store of variables, a buffer of emitted lines, and the
//! functions that run statements against them.

use vstd::prelude::*;
use vstd::hash_map::StringHashMap;
use crate::ir::{stmt_views, Expr, Ident, Literal, Stmt};
use crate::semantics::{
    emitted, first_out_of_bounds, gathered, in_bounds, indexed, literal_value, run, step, stored,
    value_of, written, zeros, Env, RuntimeError, RuntimeErrorView,
};
use crate::value::{Value, ValueView};

verus! {

/// A reference to a variable: the whole of it, one position, or a list of
/// positions.
#[derive(Debug, PartialEq, Eq)]
pub enum VarRef {
    Ident(String),
    Index(String, i64),
    Slice(String, Vec<i64>),
}

/// What a [`VarRef`] is to a contract.
pub ghost enum VarRefView {
    Ident(Seq<char>),
    Index(Seq<char>, i64),
    Slice(Seq<char>, Seq<i64>),
}

impl View for VarRef {
    type V = VarRefView;

    open spec fn view(&self) -> VarRefView {
        match self {
            VarRef::Ident(name) => VarRefView::Ident(name@),
            VarRef::Index(name, index) => VarRefView::Index(name@, *index),
            VarRef::Slice(name, positions) => VarRefView::Slice(name@, positions@),
        }
    }
}

impl VarRefView {
    /// The variable that the reference names.
    pub open spec fn name(self) -> Seq<char> {
        match self {
            VarRefView::Ident(name) => name,
            VarRefView::Index(name, _) => name,
            VarRefView::Slice(name, _) => name,
        }
    }
}

/// The value that `var_ref` reads in `env`. The name has to hold something,
/// and to be indexed it has to hold an array.
pub open spec fn referenced(env: Env, var_ref: VarRefView) -> Result<ValueView, RuntimeErrorView> {
    if !env.contains_key(var_ref.name()) {
        Err(RuntimeErrorView::UndefinedVariable(var_ref.name()))
    } else {
        match var_ref {
            VarRefView::Ident(name) => Ok(env[name]),
            VarRefView::Index(name, index) => match env[name] {
                ValueView::Array(array) => indexed(array, ValueView::Scalar(index)),
                ValueView::Scalar(_) => Err(RuntimeErrorView::NotAnArray),
            },
            VarRefView::Slice(name, positions) => match env[name] {
                ValueView::Array(array) => indexed(array, ValueView::Array(positions)),
                ValueView::Scalar(_) => Err(RuntimeErrorView::NotAnArray),
            },
        }
    }
}

/// The texts of a sequence of lines, in order.
pub open spec fn line_views(lines: Seq<String>) -> Seq<Seq<char>> {
    Seq::new(lines.len(), |i: int| lines[i]@)
}

/// Whether a result of reading is the one that `expected` names.
pub open spec fn reads_as(
    result: Result<Value, RuntimeError>,
    expected: Result<ValueView, RuntimeErrorView>,
) -> bool {
    match result {
        Ok(value) => expected == Ok::<ValueView, RuntimeErrorView>(value@),
        Err(error) => expected == Err::<ValueView, RuntimeErrorView>(error@),
    }
}

/// Whether a result of running is the one that `expected` names.
pub open spec fn fails_as(
    result: Result<(), RuntimeError>,
    expected: Option<RuntimeErrorView>,
) -> bool {
    match result {
        Ok(()) => expected is None,
        Err(error) => expected == Some(error@),
    }
}

fn zeroed(n: i64) -> (array: Vec<i64>)
    ensures
        array@ == zeros(n as int),
{
    let mut array: Vec<i64> = Vec::new();
    let mut i: i64 = 0;
    while i < n
        invariant
            0 <= i,
            i <= n || n < 0,
            array@ == zeros(if n < 0 { 0 } else { i as int }),
        decreases n - i,
    {
        array.push(0);
        i += 1;
        assert(array@ =~= zeros(i as int));
    }
    assert(array@ =~= zeros(n as int));
    array
}

fn element(array: &Vec<i64>, position: i64) -> (found: Option<i64>)
    ensures
        match found {
            Some(n) => in_bounds(position, array@.len()) && n == array@[position - 1],
            None => !in_bounds(position, array@.len()),
        },
{
    if position >= 1 && (position as u64) <= (array.len() as u64) {
        Some(array[(position - 1) as usize])
    } else {
        None
    }
}

fn gather(array: &Vec<i64>, positions: &Vec<i64>) -> (result: Result<Value, RuntimeError>)
    ensures
        reads_as(result, indexed(array@, ValueView::Array(positions@))),
{
    let mut items: Vec<i64> = Vec::new();
    let mut k: usize = 0;
    while k < positions.len()
        invariant
            k <= positions.len(),
            first_out_of_bounds(positions@, array@.len(), 0) == first_out_of_bounds(
                positions@,
                array@.len(),
                k as int,
            ),
            items@ == gathered(array@, positions@.take(k as int)),
        decreases positions.len() - k,
    {
        match element(array, positions[k]) {
            Some(n) => {
                items.push(n);
                assert(items@ =~= gathered(array@, positions@.take(k as int + 1)));
            },
            None => {
                return Err(
                    RuntimeError::IndexOutOfBounds { index: positions[k], len: array.len() },
                );
            },
        }
        k += 1;
    }
    assert(positions@.take(k as int) =~= positions@);
    Ok(Value::Array(items))
}

fn store(array: &mut Vec<i64>, index: &Value, value: &Value) -> (result: Result<(), RuntimeError>)
    ensures
        final(array)@ == stored(old(array)@, index@, value@).array,
        fails_as(result, stored(old(array)@, index@, value@).error),
{
    let n = match value {
        Value::Scalar(n) => *n,
        Value::Array(_) => {
            return Err(RuntimeError::IncompatibleTypes);
        },
    };
    let len = array.len();
    match index {
        Value::Scalar(i) => {
            let i = *i;
            if i == 0 {
                let mut p: usize = 0;
                while p < len
                    invariant
                        p <= len,
                        array@.len() == len,
                        forall|q: int| 0 <= q < p ==> array@[q] == n,
                    decreases len - p,
                {
                    array.set(p, n);
                    p += 1;
                }
                assert(array@ =~= Seq::new(old(array)@.len(), |q: int| n));
                Ok(())
            } else if i >= 1 && (i as u64) <= (len as u64) {
                array.set((i - 1) as usize, n);
                Ok(())
            } else {
                Err(RuntimeError::IndexOutOfBounds { index: i, len })
            }
        },
        Value::Array(positions) => {
            let mut k: usize = 0;
            while k < positions.len()
                invariant
                    k <= positions.len(),
                    array@.len() == len,
                    len == old(array)@.len(),
                    index@ == ValueView::Array(positions@),
                    value@ == ValueView::Scalar(n),
                    first_out_of_bounds(positions@, len as nat, 0) == first_out_of_bounds(
                        positions@,
                        len as nat,
                        k as int,
                    ),
                    array@ == written(old(array)@, positions@.take(k as int), n),
                decreases positions.len() - k,
            {
                let position = positions[k];
                if position >= 1 && (position as u64) <= (len as u64) {
                    array.set((position - 1) as usize, n);
                    proof {
                        let next = positions@.take(k as int + 1);
                        assert(next.drop_last() =~= positions@.take(k as int));
                        assert(next.last() == position);
                    }
                } else {
                    assert(first_out_of_bounds(positions@, len as nat, k as int) == k);
                    return Err(RuntimeError::IndexOutOfBounds { index: position, len });
                }
                k += 1;
            }
            assert(positions@.take(k as int) =~= positions@);
            Ok(())
        },
    }
}

/// Runs statements against the variables of one session.
///
/// The interpreter owns the variables and a buffer of the lines that the
/// statements have emitted. The host takes the lines out with
/// [`Interpreter::take_output`] and writes them where it wants them.
pub struct Interpreter {
    globals: StringHashMap<Value>,
    output: Vec<String>,
}

impl Interpreter {
    /// The variables and what each holds.
    pub closed spec fn env(&self) -> Env {
        Map::new(
            |name: Seq<char>| self.globals@.contains_key(name),
            |name: Seq<char>| self.globals@[name]@,
        )
    }

    /// The lines emitted and not yet taken out, oldest first.
    pub closed spec fn output(&self) -> Seq<Seq<char>> {
        line_views(self.output@)
    }

    /// An interpreter with no variables and no output.
    pub fn new() -> (interpreter: Interpreter)
        ensures
            interpreter.env() == Map::<Seq<char>, ValueView>::empty(),
            interpreter.output() == Seq::<Seq<char>>::empty(),
    {
        let interpreter = Interpreter { globals: StringHashMap::new(), output: Vec::new() };
        assert(interpreter.env() =~= Map::<Seq<char>, ValueView>::empty());
        assert(interpreter.output() =~= Seq::<Seq<char>>::empty());
        interpreter
    }

    /// Takes the emitted lines out of the buffer, oldest first. The variables
    /// stay as they are.
    pub fn take_output(&mut self) -> (lines: Vec<String>)
        ensures
            line_views(lines@) == old(self).output(),
            final(self).output() == Seq::<Seq<char>>::empty(),
            final(self).env() == old(self).env(),
    {
        let mut lines: Vec<String> = Vec::new();
        std::mem::swap(&mut lines, &mut self.output);
        assert(self.output() =~= Seq::<Seq<char>>::empty());
        lines
    }

    /// Runs `stmts` in order and stops at the first that fails. What the
    /// statements before it did stays done.
    #[verifier::loop_isolation(false)]
    pub fn eval(&mut self, stmts: Vec<Stmt>) -> (result: Result<(), RuntimeError>)
        ensures
            final(self).env() == run(old(self).env(), stmt_views(stmts@)).env,
            final(self).output() == old(self).output() + run(
                old(self).env(),
                stmt_views(stmts@),
            ).output,
            fails_as(result, run(old(self).env(), stmt_views(stmts@)).error),
    {
        let ghost all = stmt_views(stmts@);
        let ghost whole = run(self.env(), all);
        assert(all.skip(0) =~= all);
        assert(self.output() + whole.output =~= old(self).output() + whole.output);
        for stmt in it: stmts
            invariant
                all == stmt_views(it.seq()),
                whole.env == run(self.env(), all.skip(it.index())).env,
                whole.error == run(self.env(), all.skip(it.index())).error,
                old(self).output() + whole.output == self.output() + run(
                    self.env(),
                    all.skip(it.index()),
                ).output,
        {
            let ghost rest = all.skip(it.index());
            let ghost before = self.output();
            let ghost env_before = self.env();
            let ghost first = step(env_before, stmt@);
            assert(rest[0] == stmt@);
            assert(rest.drop_first() =~= all.skip(it.index() + 1));
            assert(run(env_before, rest).env == if first.error is Some {
                first.env
            } else {
                run(first.env, rest.drop_first()).env
            });
            match self.eval_stmt(stmt) {
                Ok(()) => {
                    assert(before + (emitted(first.line) + run(first.env, rest.drop_first()).output)
                        =~= (before + emitted(first.line)) + run(
                        first.env,
                        rest.drop_first(),
                    ).output);
                },
                Err(error) => {
                    assert(self.output() =~= before + Seq::<Seq<char>>::empty());
                    return Err(error);
                },
            }
        }
        assert(all.skip(all.len() as int) =~= Seq::<crate::ir::StmtView>::empty());
        assert(self.output() + Seq::<Seq<char>>::empty() =~= self.output());
        Ok(())
    }

    /// Runs one statement: see [`step`].
    pub fn eval_stmt(&mut self, stmt: Stmt) -> (result: Result<(), RuntimeError>)
        ensures
            final(self).env() == step(old(self).env(), stmt@).env,
            final(self).output() == old(self).output() + emitted(
                step(old(self).env(), stmt@).line,
            ),
            fails_as(result, step(old(self).env(), stmt@).error),
    {
        match stmt {
            Stmt::Decl(ident, literal) => {
                let value = self.literal(literal);
                self.bind(ident, value);
                assert(self.output() =~= old(self).output() + emitted(None));
                Ok(())
            },
            Stmt::Assign(target, literal) => {
                let value = self.literal(literal);
                match target {
                    Expr::Index(ident, index) => {
                        let mut array = match self.globals.get(ident.0.as_str()) {
                            Some(Value::Array(items)) => items.clone(),
                            _ => {
                                assert(self.output() =~= old(self).output() + emitted(None));
                                return Err(RuntimeError::NotAnArray);
                            },
                        };
                        let index = self.literal(index);
                        let result = store(&mut array, &index, &value);
                        self.bind(ident, Value::Array(array));
                        assert(self.output() =~= old(self).output() + emitted(None));
                        result
                    },
                    Expr::Ident(ident) => {
                        self.bind(ident, value);
                        assert(self.output() =~= old(self).output() + emitted(None));
                        Ok(())
                    },
                    Expr::Lit(_) => {
                        assert(self.output() =~= old(self).output() + emitted(None));
                        Err(RuntimeError::AssignToLiteral)
                    },
                }
            },
            Stmt::Print(expr) => {
                match self.eval_expr(expr) {
                    Ok(value) => {
                        let line = value.to_string();
                        self.emit(line);
                        Ok(())
                    },
                    Err(error) => {
                        assert(self.output() =~= old(self).output() + emitted(None));
                        Err(error)
                    },
                }
            },
            Stmt::Test5G => {
                self.emit("很残念，你的电脑并没有配备 5G 芯片。".to_owned());
                Ok(())
            },
        }
    }

    /// The value of an expression: see [`value_of`]. The variables stay as
    /// they are.
    pub fn eval_expr(&self, expr: Expr) -> (result: Result<Value, RuntimeError>)
        ensures
            reads_as(result, value_of(self.env(), expr@)),
    {
        match expr {
            Expr::Lit(literal) => self.eval_literal(literal),
            Expr::Index(ident, literal) => {
                let var_ref = match literal {
                    Literal::Number(index) => VarRef::Index(ident.0, index),
                    Literal::Array(positions) => VarRef::Slice(ident.0, positions),
                    Literal::ArrayByLength(n) => VarRef::Slice(ident.0, zeroed(n)),
                };
                self.eval_var_ref(var_ref)
            },
            Expr::Ident(ident) => {
                let var_ref = VarRef::Ident(ident.0);
                self.eval_var_ref(var_ref)
            },
        }
    }

    /// The value that a literal stands for. This never fails.
    pub fn eval_literal(&self, literal: Literal) -> (result: Result<Value, RuntimeError>)
        ensures
            result matches Ok(value) && value@ == literal_value(literal@),
    {
        Ok(self.literal(literal))
    }

    /// The value that a reference reads: see [`referenced`].
    pub fn eval_var_ref(&self, var_ref: VarRef) -> (result: Result<Value, RuntimeError>)
        ensures
            reads_as(result, referenced(self.env(), var_ref@)),
    {
        let found = match &var_ref {
            VarRef::Ident(name) => self.globals.get(name.as_str()),
            VarRef::Index(name, _) => self.globals.get(name.as_str()),
            VarRef::Slice(name, _) => self.globals.get(name.as_str()),
        };
        if let Some(value) = found {
            match var_ref {
                VarRef::Ident(_) => Ok(value.clone()),
                VarRef::Index(_, index) => match value {
                    Value::Array(array) => {
                        if index == 0 {
                            Ok(Value::Array(array.clone()))
                        } else {
                            match element(array, index) {
                                Some(n) => Ok(Value::Scalar(n)),
                                None => Err(
                                    RuntimeError::IndexOutOfBounds { index, len: array.len() },
                                ),
                            }
                        }
                    },
                    Value::Scalar(_) => Err(RuntimeError::NotAnArray),
                },
                VarRef::Slice(_, positions) => match value {
                    Value::Array(array) => gather(array, &positions),
                    Value::Scalar(_) => Err(RuntimeError::NotAnArray),
                },
            }
        } else {
            let name = match var_ref {
                VarRef::Ident(name) => name,
                VarRef::Index(name, _) => name,
                VarRef::Slice(name, _) => name,
            };
            Err(RuntimeError::UndefinedVariable(Ident(name)))
        }
    }

    fn literal(&self, literal: Literal) -> (value: Value)
        ensures
            value@ == literal_value(literal@),
    {
        match literal {
            Literal::Number(n) => Value::Scalar(n),
            Literal::Array(items) => Value::Array(items),
            Literal::ArrayByLength(n) => Value::Array(zeroed(n)),
        }
    }

    fn bind(&mut self, ident: Ident, value: Value)
        ensures
            final(self).env() == old(self).env().insert(ident@, value@),
            final(self).output() == old(self).output(),
    {
        self.globals.insert(ident.0, value);
        assert(self.env() =~= old(self).env().insert(ident@, value@));
    }

    fn emit(&mut self, line: String)
        ensures
            final(self).env() == old(self).env(),
            final(self).output() == old(self).output() + emitted(Some(line@)),
    {
        self.output.push(line);
        assert(self.output() =~= old(self).output() + emitted(Some(line@)));
    }
}

} // verus!
