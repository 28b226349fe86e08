//! Run-time values and the text they are printed as.

use vstd::prelude::*;

verus! {

/// What a variable holds: one integer, or a fixed-length array of integers.
#[derive(Debug, PartialEq, Eq)]
pub enum Value {
    Scalar(i64),
    Array(Vec<i64>),
}

/// What a [`Value`] is to a contract.
pub ghost enum ValueView {
    Scalar(i64),
    Array(Seq<i64>),
}

impl View for Value {
    type V = ValueView;

    open spec fn view(&self) -> ValueView {
        match self {
            Value::Scalar(n) => ValueView::Scalar(*n),
            Value::Array(items) => ValueView::Array(items@),
        }
    }
}

impl Clone for Value {
    fn clone(&self) -> (copy: Value)
        ensures
            copy@ == self@,
    {
        match self {
            Value::Scalar(n) => Value::Scalar(*n),
            Value::Array(items) => Value::Array(items.clone()),
        }
    }
}

/// The character of the decimal digit `d`, for `d` in 0..=9.
pub open spec fn digit_char(d: int) -> char {
    ((d + 48) as u8) as char
}

/// The decimal digits of `n`, most significant first, without leading zeros.
pub open spec fn digits(n: nat) -> Seq<char>
    decreases n,
{
    if n < 10 {
        seq![digit_char(n as int)]
    } else {
        digits(n / 10).push(digit_char((n % 10) as int))
    }
}

/// The decimal text of `n`: a minus sign for a negative number, then its digits.
pub open spec fn decimal(n: int) -> Seq<char> {
    if n < 0 {
        seq!['-'] + digits((-n) as nat)
    } else {
        digits(n as nat)
    }
}

/// What separates the elements of a printed array.
pub open spec fn separator() -> Seq<char> {
    seq![' ', '|', ' ']
}

/// The decimal texts of `items` in order, with the separator between
/// neighbours and none at either end.
pub open spec fn joined(items: Seq<i64>) -> Seq<char>
    decreases items.len(),
{
    if items.len() == 0 {
        Seq::empty()
    } else if items.len() == 1 {
        decimal(items[0] as int)
    } else {
        joined(items.drop_last()) + separator() + decimal(items.last() as int)
    }
}

/// The line that printing `v` emits.
pub open spec fn rendered(v: ValueView) -> Seq<char> {
    match v {
        ValueView::Scalar(n) => decimal(n as int),
        ValueView::Array(items) => joined(items),
    }
}

fn digit_text(d: u64) -> (text: &'static str)
    requires
        d < 10,
    ensures
        text@ == seq![digit_char(d as int)],
{
    proof {
        reveal_strlit("0");
        reveal_strlit("1");
        reveal_strlit("2");
        reveal_strlit("3");
        reveal_strlit("4");
        reveal_strlit("5");
        reveal_strlit("6");
        reveal_strlit("7");
        reveal_strlit("8");
        reveal_strlit("9");
    }
    let text = match d {
        0 => "0",
        1 => "1",
        2 => "2",
        3 => "3",
        4 => "4",
        5 => "5",
        6 => "6",
        7 => "7",
        8 => "8",
        _ => "9",
    };
    assert(text@ =~= seq![digit_char(d as int)]);
    text
}

/// Appends the decimal digits of `n` to `out`.
pub fn push_digits(out: &mut String, n: u64)
    ensures
        final(out)@ == old(out)@ + digits(n as nat),
    decreases n,
{
    if n >= 10 {
        push_digits(out, n / 10);
    }
    out.append(digit_text(n % 10));
    assert(out@ =~= old(out)@ + digits(n as nat));
}

/// Appends the decimal text of `n` to `out`.
pub fn push_decimal(out: &mut String, n: i64)
    ensures
        final(out)@ == old(out)@ + decimal(n as int),
{
    if n < 0 {
        proof {
            reveal_strlit("-");
        }
        out.append("-");
        let magnitude: u64 = ((-(n + 1)) as u64) + 1;
        push_digits(out, magnitude);
        assert(final(out)@ =~= old(out)@ + decimal(n as int));
    } else {
        push_digits(out, n as u64);
    }
}

impl Value {
    /// The line that printing this value emits: the decimal digits of a
    /// scalar, or the elements of an array with ` | ` between them.
    pub fn to_string(&self) -> (text: String)
        ensures
            text@ == rendered(self@),
    {
        let mut text = String::new();
        match self {
            Value::Scalar(n) => {
                push_decimal(&mut text, *n);
                assert(text@ =~= rendered(self@));
            },
            Value::Array(items) => {
                let mut i: usize = 0;
                while i < items.len()
                    invariant
                        i <= items.len(),
                        text@ == joined(items@.take(i as int)),
                    decreases items.len() - i,
                {
                    if i > 0 {
                        text.append(" | ");
                    }
                    push_decimal(&mut text, items[i]);
                    proof {
                        reveal_strlit(" | ");
                        let before = items@.take(i as int);
                        let after = items@.take(i as int + 1);
                        assert(after.drop_last() =~= before);
                        assert(after.last() == items@[i as int]);
                        assert(" | "@ =~= separator());
                        assert(text@ =~= joined(after));
                    }
                    i += 1;
                }
                assert(items@.take(i as int) =~= items@);
            },
        }
        text
    }
}

} // verus!
