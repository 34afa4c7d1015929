//! The text of what a program writes: one line for every output.

use vstd::prelude::*;
use vstd::string::StringExecFns;
use crate::interpreter::{Output, OutputView};
use crate::parser::{decimal_value, int_of, is_digit};

verus! {

/// The character of a decimal digit.
pub open spec fn digit_char(d: int) -> char {
    if d == 0 {
        '0'
    } else if d == 1 {
        '1'
    } else if d == 2 {
        '2'
    } else if d == 3 {
        '3'
    } else if d == 4 {
        '4'
    } else if d == 5 {
        '5'
    } else if d == 6 {
        '6'
    } else if d == 7 {
        '7'
    } else if d == 8 {
        '8'
    } else {
        '9'
    }
}

/// The decimal digits of a natural number, without leading zeros.
pub open spec fn digits(n: nat) -> Seq<char>
    decreases n,
{
    if n < 10 {
        seq![digit_char(n as int)]
    } else {
        digits(n / 10).push(digit_char((n % 10) as int))
    }
}

/// The decimal text of an integer: a minus sign for a negative number, then
/// the digits of its magnitude.
pub open spec fn decimal(i: int) -> Seq<char> {
    if i < 0 {
        seq!['-'] + digits((-i) as nat)
    } else {
        digits(i as nat)
    }
}

/// The line that an output is written as.
pub open spec fn rendered(out: OutputView) -> Seq<char> {
    match out {
        OutputView::Nil => "nil"@,
        OutputView::Int(i) => decimal(i as int),
        OutputView::Text(s) => s,
        OutputView::NotCallable => "INTERPRETER ERROR: non function value was called!"@,
    }
}

/// The digits of a number are digits, and they denote the number.
pub proof fn lemma_digits_denote(n: nat)
    ensures
        digits(n).len() > 0,
        forall|k: int| 0 <= k < digits(n).len() ==> is_digit(#[trigger] digits(n)[k]),
        decimal_value(digits(n)) == n,
    decreases n,
{
    if n < 10 {
        let s = digits(n);
        assert(s.drop_last() =~= Seq::<char>::empty());
        assert(decimal_value(s.drop_last()) == 0);
    } else {
        lemma_digits_denote(n / 10);
        let s = digits(n);
        assert(s.drop_last() =~= digits(n / 10));
        assert(s.last() == digit_char((n % 10) as int));
    }
}

/// What is written of an integer that is not negative reads back as that
/// integer.
pub proof fn lemma_text_reads_back(i: i32)
    requires
        i >= 0,
    ensures
        int_of(decimal(i as int)) == Some(i),
{
    lemma_digits_denote(i as nat);
}

/// The digit as a string.
fn digit_str(d: u8) -> (s: &'static str)
    requires
        d < 10,
    ensures
        s@ == seq![digit_char(d as int)],
{
    proof {
        reveal_strlit("0");
        reveal_strlit("1");
        reveal_strlit("2");
        reveal_strlit("3");
        reveal_strlit("4");
        reveal_strlit("5");
        reveal_strlit("6");
        reveal_strlit("7");
        reveal_strlit("8");
        reveal_strlit("9");
    }
    let s = match d {
        0 => "0",
        1 => "1",
        2 => "2",
        3 => "3",
        4 => "4",
        5 => "5",
        6 => "6",
        7 => "7",
        8 => "8",
        _ => "9",
    };
    assert(s@ =~= seq![digit_char(d as int)]);
    s
}

/// The decimal text of an integer.
pub fn int_text(i: i32) -> (text: String)
    ensures
        text@ == decimal(i as int),
{
    // the digits, lowest first
    let mut low_first: Vec<u8> = Vec::new();
    let magnitude: u32 = if i < 0 {
        (-(i as i64)) as u32
    } else {
        i as u32
    };
    let mut rest: u32 = magnitude;
    let ghost mut shown: Seq<char> = Seq::empty();
    while rest >= 10
        invariant
            forall|k: int| 0 <= k < low_first@.len() ==> low_first@[k] < 10,
            shown.len() == low_first@.len(),
            forall|k: int|
                0 <= k < low_first@.len() ==> shown[k] == digit_char(
                    low_first@[low_first@.len() - 1 - k] as int,
                ),
            digits(magnitude as nat) == digits(rest as nat) + shown,
        decreases rest,
    {
        let d: u8 = (rest % 10) as u8;
        proof {
            let grown = seq![digit_char(d as int)] + shown;
            assert(digits(rest as nat) == digits((rest / 10) as nat).push(digit_char(d as int)));
            assert(digits((rest / 10) as nat).push(digit_char(d as int)) + shown =~= digits(
                (rest / 10) as nat,
            ) + grown);
            shown = grown;
        }
        low_first.push(d);
        rest = rest / 10;
    }
    low_first.push(rest as u8);
    proof {
        let grown = seq![digit_char(rest as int)] + shown;
        assert(digits(rest as nat) + shown =~= grown);
        shown = grown;
    }
    let mut text = if i < 0 {
        String::from_str("-")
    } else {
        String::from_str("")
    };
    proof {
        reveal_strlit("-");
        reveal_strlit("");
    }
    let ghost sign = text@;
    assert(sign =~= if i < 0 {
        seq!['-']
    } else {
        Seq::<char>::empty()
    });
    let mut at: usize = low_first.len();
    assert(shown.take(0) =~= Seq::<char>::empty());
    assert(sign + shown.take(0) =~= sign);
    while at > 0
        invariant
            at <= low_first@.len(),
            forall|k: int| 0 <= k < low_first@.len() ==> low_first@[k] < 10,
            shown.len() == low_first@.len(),
            forall|k: int|
                0 <= k < low_first@.len() ==> shown[k] == digit_char(
                    low_first@[low_first@.len() - 1 - k] as int,
                ),
            text@ == sign + shown.take(low_first@.len() - at),
        decreases at,
    {
        at -= 1;
        let ghost done = low_first@.len() - at - 1;
        let piece = digit_str(low_first[at]);
        assert(shown.take(done + 1) =~= shown.take(done).push(shown[done]));
        assert(shown[done] == digit_char(low_first@[at as int] as int));
        text.append(piece);
        assert(text@ =~= sign + shown.take(done + 1));
    }
    assert(shown.take(low_first@.len() as int) =~= shown);
    text
}

impl Output {
    /// The line that this output is written as: `nil`, the decimal text of
    /// an integer, the characters of a string, or the report of a call of a
    /// value that is no function.
    pub fn text(&self) -> (line: String)
        ensures
            line@ == rendered(self@),
    {
        match self {
            Output::Nil => String::from_str("nil"),
            Output::Int(i) => int_text(*i),
            Output::Text(s) => s.clone(),
            Output::NotCallable => String::from_str(
                "INTERPRETER ERROR: non function value was called!",
            ),
        }
    }
}

} // verus!
