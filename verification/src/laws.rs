//! Laws of the language, proved from the definitions of its semantics.

use vstd::prelude::*;
use crate::grammar::{
    expr_at, literal_at, number_at, numbers_after, print_stmt_at, program, stmt_at, stmts_from,
    text_of, SyntaxError, SyntaxErrorKind,
};
use crate::ir::{ExprView, LiteralView, StmtView};
use crate::lexer::{
    is_number_text, lemma_decimal_round_trip, number_value, token_at, TokenKind,
};
use crate::round_trip::{
    lemma_end_token, lemma_expr_after_space, lemma_number_text_token, lemma_print_keyword_reads,
};
use crate::semantics::{
    first_out_of_bounds, gathered, in_bounds, literal_value, out_of_bounds, run, step, value_of,
    written, Env, RuntimeErrorView, Step,
};
use crate::session::{response, Response};
use crate::value::{decimal, ValueView};

verus! {

/// Every position before the first one out of bounds is in bounds, and the
/// first one out of bounds, if there is one, is not.
pub proof fn lemma_first_out_of_bounds(positions: Seq<i64>, len: nat, from: int)
    requires
        0 <= from <= positions.len(),
    ensures
        from <= first_out_of_bounds(positions, len, from) <= positions.len(),
        forall|k: int|
            from <= k < first_out_of_bounds(positions, len, from) ==> in_bounds(
                #[trigger] positions[k],
                len,
            ),
        first_out_of_bounds(positions, len, from) < positions.len() ==> !in_bounds(
            positions[first_out_of_bounds(positions, len, from)],
            len,
        ),
    decreases positions.len() - from,
{
    if from < positions.len() && in_bounds(positions[from], len) {
        lemma_first_out_of_bounds(positions, len, from + 1);
    }
}

/// Where every position is in bounds, none is the first out of bounds.
pub proof fn lemma_all_in_bounds(positions: Seq<i64>, len: nat, from: int)
    requires
        0 <= from <= positions.len(),
        forall|k: int| from <= k < positions.len() ==> in_bounds(#[trigger] positions[k], len),
    ensures
        first_out_of_bounds(positions, len, from) == positions.len(),
    decreases positions.len() - from,
{
    if from < positions.len() {
        lemma_all_in_bounds(positions, len, from + 1);
    }
}

/// Writing `n` at positions that are all in bounds keeps the length, puts `n`
/// at every listed position and leaves every other element as it was.
pub proof fn lemma_written(array: Seq<i64>, positions: Seq<i64>, n: i64)
    requires
        forall|k: int| 0 <= k < positions.len() ==> in_bounds(#[trigger] positions[k], array.len()),
    ensures
        written(array, positions, n).len() == array.len(),
        forall|p: int|
            0 <= p < array.len() ==> #[trigger] written(array, positions, n)[p] == if exists|k: int|
                0 <= k < positions.len() && #[trigger] positions[k] == p + 1 {
                n
            } else {
                array[p]
            },
    decreases positions.len(),
{
    if positions.len() > 0 {
        let front = positions.drop_last();
        lemma_written(array, front, n);
        assert forall|p: int| 0 <= p < array.len() implies #[trigger] written(array, positions, n)[p]
            == if exists|k: int| 0 <= k < positions.len() && #[trigger] positions[k] == p + 1 {
            n
        } else {
            array[p]
        } by {
            if positions.last() == p + 1 {
                assert(positions[positions.len() - 1] == p + 1);
            } else if exists|k: int| 0 <= k < front.len() && #[trigger] front[k] == p + 1 {
                let k = choose|k: int| 0 <= k < front.len() && #[trigger] front[k] == p + 1;
                assert(positions[k] == p + 1);
            } else {
                assert forall|k: int| 0 <= k < positions.len() implies #[trigger] positions[k] != p
                    + 1 by {
                    if k < front.len() {
                        assert(front[k] == positions[k]);
                    }
                }
            }
        }
    }
}

/// Reading a name that was never declared fails with `UndefinedVariable`,
/// emits nothing and leaves the variables unchanged.
pub proof fn law_undefined_reference(env: Env, name: Seq<char>)
    requires
        !env.contains_key(name),
    ensures
        step(env, StmtView::Print(ExprView::Ident(name))) == (Step {
            env,
            line: None,
            error: Some(RuntimeErrorView::UndefinedVariable(name)),
        }),
        run(env, seq![StmtView::Print(ExprView::Ident(name))]).env == env,
        run(env, seq![StmtView::Print(ExprView::Ident(name))]).output == Seq::<Seq<char>>::empty(),
        run(env, seq![StmtView::Print(ExprView::Ident(name))]).error == Some(
            RuntimeErrorView::UndefinedVariable(name),
        ),
{
}

/// Printing changes no variable, so printing the same expression again
/// gives the same line, or the same error, as the first time.
pub proof fn law_print_is_repeatable(env: Env, expr: ExprView)
    ensures
        step(env, StmtView::Print(expr)).env == env,
        step(step(env, StmtView::Print(expr)).env, StmtView::Print(expr)) == step(
            env,
            StmtView::Print(expr),
        ),
        step(env, StmtView::Print(expr)).error is None ==> run(
            env,
            seq![StmtView::Print(expr), StmtView::Print(expr)],
        ).output == seq![
            step(env, StmtView::Print(expr)).line->Some_0,
            step(env, StmtView::Print(expr)).line->Some_0,
        ],
{
    reveal_with_fuel(run, 3);
    let print = StmtView::Print(expr);
    let twice = seq![print, print];
    let first = step(env, print);
    if first.error is None {
        let once = twice.drop_first();
        assert(once[0] == print);
        assert(once.drop_first().len() == 0);
        assert(run(env, once).output =~= seq![first.line->Some_0]);
        assert(run(env, twice).output =~= seq![first.line->Some_0, first.line->Some_0]);
    }
}

/// A name can be declared again with a value of either shape. Both
/// declarations succeed, and the name then reads as the later value.
pub proof fn law_declaration_overwrites(
    env: Env,
    name: Seq<char>,
    earlier: LiteralView,
    later: LiteralView,
)
    ensures
        run(env, seq![StmtView::Decl(name, earlier), StmtView::Decl(name, later)]).error is None,
        value_of(
            run(env, seq![StmtView::Decl(name, earlier), StmtView::Decl(name, later)]).env,
            ExprView::Ident(name),
        ) == Ok::<ValueView, RuntimeErrorView>(literal_value(later)),
{
    reveal_with_fuel(run, 3);
    let both = seq![StmtView::Decl(name, earlier), StmtView::Decl(name, later)];
    let second = both.drop_first();
    assert(second[0] == StmtView::Decl(name, later));
    assert(second.drop_first().len() == 0);
    let middle = step(env, both[0]).env;
    assert(run(middle, second).env == step(middle, second[0]).env);
}

/// An array that was declared reads back whole at index 0 and element by
/// element at the positions from 1 to its length; any other position is out
/// of bounds.
pub proof fn law_array_round_trip(env: Env, name: Seq<char>, items: Seq<i64>, index: i64)
    ensures
        ({
            let declared = step(env, StmtView::Decl(name, LiteralView::Array(items))).env;
            let read = value_of(declared, ExprView::Index(name, LiteralView::Number(index)));
            if index == 0 {
                read == Ok::<ValueView, RuntimeErrorView>(ValueView::Array(items))
            } else if 1 <= index <= items.len() {
                read == Ok::<ValueView, RuntimeErrorView>(ValueView::Scalar(items[index - 1]))
            } else {
                read == Err::<ValueView, RuntimeErrorView>(out_of_bounds(index, items.len()))
            }
        }),
{
}

/// Assigning a scalar at index 0 fills the array: every element becomes that
/// scalar and the length stays.
pub proof fn law_broadcast_write(env: Env, name: Seq<char>, n: i64)
    requires
        env.contains_key(name),
        env[name] is Array,
    ensures
        ({
            let assign = StmtView::Assign(
                ExprView::Index(name, LiteralView::Number(0)),
                LiteralView::Number(n),
            );
            let after = step(env, assign);
            &&& after.error is None
            &&& after.env[name] is Array
            &&& after.env[name]->Array_0.len() == env[name]->Array_0.len()
            &&& forall|p: int|
                0 <= p < env[name]->Array_0.len() ==> #[trigger] after.env[name]->Array_0[p] == n
        }),
{
}

/// Reading at a list of positions that are all in bounds gathers the
/// elements in the order of the list, whatever their order in the array.
pub proof fn law_slice_read(env: Env, name: Seq<char>, positions: Seq<i64>)
    requires
        env.contains_key(name),
        env[name] is Array,
        forall|k: int|
            0 <= k < positions.len() ==> in_bounds(
                #[trigger] positions[k],
                env[name]->Array_0.len(),
            ),
    ensures
        ({
            let read = value_of(env, ExprView::Index(name, LiteralView::Array(positions)));
            &&& read == Ok::<ValueView, RuntimeErrorView>(
                ValueView::Array(gathered(env[name]->Array_0, positions)),
            )
            &&& gathered(env[name]->Array_0, positions).len() == positions.len()
            &&& forall|k: int|
                0 <= k < positions.len() ==> #[trigger] gathered(env[name]->Array_0, positions)[k]
                    == env[name]->Array_0[positions[k] - 1]
        }),
{
    lemma_all_in_bounds(positions, env[name]->Array_0.len(), 0);
}

/// Assigning a scalar at a list of positions that are all in bounds puts it
/// at each of them and leaves every other element as it was.
pub proof fn law_slice_write(env: Env, name: Seq<char>, positions: Seq<i64>, n: i64)
    requires
        env.contains_key(name),
        env[name] is Array,
        forall|k: int|
            0 <= k < positions.len() ==> in_bounds(
                #[trigger] positions[k],
                env[name]->Array_0.len(),
            ),
    ensures
        ({
            let assign = StmtView::Assign(
                ExprView::Index(name, LiteralView::Array(positions)),
                LiteralView::Number(n),
            );
            let before = env[name]->Array_0;
            let after = step(env, assign);
            &&& after.error is None
            &&& after.env[name] is Array
            &&& after.env[name]->Array_0.len() == before.len()
            &&& forall|p: int|
                0 <= p < before.len() ==> #[trigger] after.env[name]->Array_0[p] == if exists|
                    k: int,
                | 0 <= k < positions.len() && #[trigger] positions[k] == p + 1 {
                    n
                } else {
                    before[p]
                }
        }),
{
    let before = env[name]->Array_0;
    lemma_all_in_bounds(positions, before.len(), 0);
    assert(positions.take(positions.len() as int) =~= positions);
    lemma_written(before, positions, n);
}

/// A failing slice write keeps what it wrote before the first position out
/// of bounds: the elements named by the positions before that one hold the
/// scalar, and the assignment reports that position.
pub proof fn law_slice_write_stops_at_first_out_of_bounds(
    env: Env,
    name: Seq<char>,
    positions: Seq<i64>,
    n: i64,
)
    requires
        env.contains_key(name),
        env[name] is Array,
        exists|k: int| 0 <= k < positions.len() && !in_bounds(
            #[trigger] positions[k],
            env[name]->Array_0.len(),
        ),
    ensures
        ({
            let assign = StmtView::Assign(
                ExprView::Index(name, LiteralView::Array(positions)),
                LiteralView::Number(n),
            );
            let before = env[name]->Array_0;
            let stop = first_out_of_bounds(positions, before.len(), 0);
            let after = step(env, assign);
            &&& 0 <= stop < positions.len()
            &&& after.error == Some(out_of_bounds(positions[stop], before.len()))
            &&& after.env[name] == ValueView::Array(written(before, positions.take(stop), n))
            &&& forall|k: int|
                0 <= k < stop ==> after.env[name]->Array_0[#[trigger] positions[k] - 1] == n
        }),
{
    let before = env[name]->Array_0;
    let stop = first_out_of_bounds(positions, before.len(), 0);
    lemma_first_out_of_bounds(positions, before.len(), 0);
    let bad = choose|k: int| 0 <= k < positions.len() && !in_bounds(
        #[trigger] positions[k],
        before.len(),
    );
    assert(stop <= bad);
    let front = positions.take(stop);
    assert forall|k: int| 0 <= k < front.len() implies in_bounds(
        #[trigger] front[k],
        before.len(),
    ) by {
        assert(front[k] == positions[k]);
    }
    lemma_written(before, front, n);
    assert forall|k: int| 0 <= k < stop implies written(before, front, n)[#[trigger] positions[k]
        - 1] == n by {
        assert(front[k] == positions[k]);
        assert(in_bounds(positions[k], before.len()));
    }
}

/// The source text that prints `text`: the keyword, a blank, and `text`.
pub open spec fn print_source(text: Seq<char>) -> Seq<char> {
    seq!['p', 'r', 'i', 'n', 't', ' '] + text
}

/// A number token that reaches the end of the text is read as an expression:
/// the literal of its value.
proof fn lemma_number_expr(s: Seq<char>, from: int, n: i64)
    requires
        token_at(s, from).kind == TokenKind::Number,
        token_at(s, from).end == s.len(),
        number_value(text_of(s, token_at(s, from))) == n,
    ensures
        expr_at(s, from) == Ok::<(ExprView, int), SyntaxError>(
            (ExprView::Lit(LiteralView::Number(n)), s.len() as int),
        ),
{
    let len = s.len() as int;
    lemma_end_token(s);
    assert(number_at(s, from) == Ok::<(i64, int), SyntaxError>((n, len)));
    assert(numbers_after(s, len, seq![n]) == Ok::<(Seq<i64>, int), SyntaxError>((seq![n], len)));
    assert(literal_at(s, from) == Ok::<(LiteralView, int), SyntaxError>(
        (LiteralView::Number(n), len),
    ));
}

/// A text whose one statement reaches its end is the program of that
/// statement.
proof fn lemma_one_statement(s: Seq<char>, stmt: StmtView)
    requires
        token_at(s, 0).kind != TokenKind::End,
        stmt_at(s, 0) == Ok::<(StmtView, int), SyntaxError>((stmt, s.len() as int)),
    ensures
        program(s) == Ok::<Seq<StmtView>, SyntaxError>(seq![stmt]),
{
    let len = s.len() as int;
    lemma_end_token(s);
    assert(Seq::<StmtView>::empty().push(stmt) =~= seq![stmt]);
    assert(stmts_from(s, len, seq![stmt]) == Ok::<Seq<StmtView>, SyntaxError>(seq![stmt]));
    assert(stmts_from(s, 0, Seq::empty()) == stmts_from(s, len, seq![stmt]));
}

/// The program that `print_source(text)` is, for `text` written as a number
/// within the range of 64 bits: one statement, which prints that number.
pub proof fn lemma_print_source_parses(text: Seq<char>)
    requires
        is_number_text(text),
        i64::MIN <= number_value(text) <= i64::MAX,
    ensures
        program(print_source(text)) == Ok::<Seq<StmtView>, SyntaxError>(
            seq![
                StmtView::Print(ExprView::Lit(LiteralView::Number(number_value(text) as i64))),
            ],
        ),
{
    let s = print_source(text);
    let n = number_value(text) as i64;
    let head = seq!['p', 'r', 'i', 'n', 't', ' '];
    assert(s.subrange(0, 6) =~= head);
    assert(s.subrange(6, 6 + text.len() as int) =~= text);
    lemma_print_keyword_reads(s, 0);
    lemma_number_text_token(s, 6, text);
    lemma_number_expr(s, 6, n);
    lemma_expr_after_space(s, 5);
    let stmt = StmtView::Print(ExprView::Lit(LiteralView::Number(n)));
    assert(print_stmt_at(s, 5) == Ok::<(StmtView, int), SyntaxError>((stmt, s.len() as int)));
    lemma_one_statement(s, stmt);
}

/// Printing a number: for every text that is written as a number within the
/// range of 64 bits, the source `print` and that text is a program, and
/// running it emits one line, the decimal text of the number, and changes no
/// variable.
pub proof fn law_print_number(env: Env, text: Seq<char>)
    requires
        is_number_text(text),
        i64::MIN <= number_value(text) <= i64::MAX,
    ensures
        response(env, print_source(text)) == (Response {
            env,
            output: seq![decimal(number_value(text))],
            error: None,
        }),
{
    reveal_with_fuel(run, 2);
    lemma_print_source_parses(text);
    let n = number_value(text) as i64;
    let stmt = StmtView::Print(ExprView::Lit(LiteralView::Number(n)));
    let stmts = seq![stmt];
    assert(stmts[0] == stmt);
    assert(stmts.drop_first().len() == 0);
    assert(run(env, stmts).output =~= seq![decimal(number_value(text))]);
}

/// Printing the decimal text of a 64-bit number emits that very text.
pub proof fn law_print_decimal_text(env: Env, n: i64)
    ensures
        response(env, print_source(decimal(n as int))) == (Response {
            env,
            output: seq![decimal(n as int)],
            error: None,
        }),
{
    lemma_decimal_round_trip(n as int);
    law_print_number(env, decimal(n as int));
}

/// A number that does not fit 64 bits is no program: for every text that is
/// written as a number outside that range, the source `print` and that text
/// gives the error `NumberOutOfRange`, which covers the number.
pub proof fn law_print_number_out_of_range(text: Seq<char>)
    requires
        is_number_text(text),
        !(i64::MIN <= number_value(text) <= i64::MAX),
    ensures
        program(print_source(text)) == Err::<Seq<StmtView>, SyntaxError>(
            SyntaxError {
                kind: SyntaxErrorKind::NumberOutOfRange,
                start: 6,
                end: print_source(text).len() as usize,
            },
        ),
{
    let s = print_source(text);
    let head = seq!['p', 'r', 'i', 'n', 't', ' '];
    assert(s.subrange(0, 6) =~= head);
    assert(s.subrange(6, 6 + text.len() as int) =~= text);
    lemma_print_keyword_reads(s, 0);
    lemma_number_text_token(s, 6, text);
    lemma_expr_after_space(s, 5);
    let error = SyntaxError {
        kind: SyntaxErrorKind::NumberOutOfRange,
        start: 6,
        end: s.len() as usize,
    };
    assert(number_at(s, 6) == Err::<(i64, int), SyntaxError>(error));
    assert(literal_at(s, 6) == Err::<(LiteralView, int), SyntaxError>(error));
    assert(expr_at(s, 6) == Err::<(ExprView, int), SyntaxError>(error));
    assert(print_stmt_at(s, 5) == Err::<(StmtView, int), SyntaxError>(error));
    assert(stmt_at(s, 0) == Err::<(StmtView, int), SyntaxError>(error));
}

} // verus!
