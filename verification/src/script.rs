//! The script text of operations: one line per operation, in the engine's notation.

use crate::operation::{BinaryGate, Operation, OperationView, UnaryGate};
use vstd::prelude::*;

verus! {

/// The character that writes the digit `d`.
pub open spec fn digit_char(d: nat) -> char {
    if d == 0 {
        '0'
    } else if d == 1 {
        '1'
    } else if d == 2 {
        '2'
    } else if d == 3 {
        '3'
    } else if d == 4 {
        '4'
    } else if d == 5 {
        '5'
    } else if d == 6 {
        '6'
    } else if d == 7 {
        '7'
    } else if d == 8 {
        '8'
    } else {
        '9'
    }
}

/// `n` in decimal notation, without leading zeros.
pub open spec fn decimal(n: nat) -> Seq<char>
    decreases n,
{
    if n < 10 {
        seq![digit_char(n)]
    } else {
        decimal(n / 10).push(digit_char(n % 10))
    }
}

/// The name by which the engine knows a one-qubit gate.
pub open spec fn mnemonic(g: UnaryGate) -> Seq<char> {
    match g {
        UnaryGate::X => "x"@,
        UnaryGate::Y => "y"@,
        UnaryGate::Z => "z"@,
        UnaryGate::H => "h"@,
        UnaryGate::S => "s"@,
        UnaryGate::Sdg => "sdg"@,
        UnaryGate::T => "t"@,
        UnaryGate::Tdg => "tdg"@,
    }
}

/// The line of script that stands for one operation.
pub open spec fn script_line(op: OperationView) -> Seq<char> {
    match op {
        OperationView::Init => "c = Circuit()"@,
        OperationView::Measure(q, _) => "c.m["@ + decimal(q as nat) + "]"@,
        OperationView::Binary(BinaryGate::Cx, c, t) => "c.cx["@ + decimal(c as nat) + ", "@
            + decimal(t as nat) + "]"@,
        OperationView::Unary(g, q) => "c."@ + mnemonic(g) + "["@ + decimal(q as nat) + "]"@,
        OperationView::Raw(text) => text,
    }
}

/// The script of a sequence of operations: their lines in order, a line feed between two.
pub open spec fn script_text(ops: Seq<OperationView>) -> Seq<char>
    decreases ops.len(),
{
    if ops.len() == 0 {
        Seq::empty()
    } else if ops.len() == 1 {
        script_line(ops[0])
    } else {
        script_text(ops.drop_last()) + "\n"@ + script_line(ops.last())
    }
}

/// The script keeps the order of the operations: the script of two sequences, one after the
/// other, is the script of the first, a line feed, and the script of the second.
pub proof fn lemma_script_text_concat(first: Seq<OperationView>, second: Seq<OperationView>)
    requires
        first.len() > 0,
        second.len() > 0,
    ensures
        script_text(first + second) == script_text(first) + "\n"@ + script_text(second),
    decreases second.len(),
{
    let both = first + second;
    assert(both.drop_last() =~= first + second.drop_last());
    assert(both.last() == second.last());
    if second.len() == 1 {
        assert(first + second.drop_last() =~= first);
        assert(second[0] == second.last());
    } else {
        lemma_script_text_concat(first, second.drop_last());
        assert(script_text(both) =~= script_text(first) + "\n"@ + script_text(second));
    }
}

fn digit_str(d: u32) -> (text: &'static str)
    requires
        d < 10,
    ensures
        text@ == seq![digit_char(d as nat)],
{
    proof {
        reveal_strlit("0");
        reveal_strlit("1");
        reveal_strlit("2");
        reveal_strlit("3");
        reveal_strlit("4");
        reveal_strlit("5");
        reveal_strlit("6");
        reveal_strlit("7");
        reveal_strlit("8");
        reveal_strlit("9");
    }
    let text = if d == 0 {
        "0"
    } else if d == 1 {
        "1"
    } else if d == 2 {
        "2"
    } else if d == 3 {
        "3"
    } else if d == 4 {
        "4"
    } else if d == 5 {
        "5"
    } else if d == 6 {
        "6"
    } else if d == 7 {
        "7"
    } else if d == 8 {
        "8"
    } else {
        "9"
    };
    assert(text@ =~= seq![digit_char(d as nat)]);
    text
}

/// Appends `n` in decimal notation to `text`.
pub fn append_decimal(text: &mut String, n: u32)
    ensures
        final(text)@ == old(text)@ + decimal(n as nat),
    decreases n,
{
    if n >= 10 {
        append_decimal(text, n / 10);
    }
    text.append(digit_str(n % 10));
    proof {
        let d = seq![digit_char((n % 10) as nat)];
        if n >= 10 {
            assert(decimal(n as nat) =~= decimal((n / 10) as nat) + d);
            assert(final(text)@ =~= old(text)@ + decimal(n as nat));
        } else {
            assert(final(text)@ =~= old(text)@ + decimal(n as nat));
        }
    }
}

fn mnemonic_str(g: UnaryGate) -> (name: &'static str)
    ensures
        name@ == mnemonic(g),
{
    match g {
        UnaryGate::X => "x",
        UnaryGate::Y => "y",
        UnaryGate::Z => "z",
        UnaryGate::H => "h",
        UnaryGate::S => "s",
        UnaryGate::Sdg => "sdg",
        UnaryGate::T => "t",
        UnaryGate::Tdg => "tdg",
    }
}

/// The line of script for one operation.
pub fn op_to_script(op: &Operation) -> (line: String)
    ensures
        line@ == script_line(op@),
{
    match op {
        Operation::Init => "c = Circuit()".to_owned(),
        Operation::Measure(q, _) => {
            let mut line = "c.m[".to_owned();
            append_decimal(&mut line, *q);
            line.append("]");
            line
        },
        Operation::Binary(BinaryGate::Cx, c, t) => {
            let mut line = "c.cx[".to_owned();
            append_decimal(&mut line, *c);
            line.append(", ");
            append_decimal(&mut line, *t);
            line.append("]");
            line
        },
        Operation::Unary(g, q) => {
            let mut line = "c.".to_owned();
            line.append(mnemonic_str(*g));
            line.append("[");
            append_decimal(&mut line, *q);
            line.append("]");
            line
        },
        Operation::Raw(text) => text.clone(),
    }
}

/// The script for a sequence of operations: one line each, in order.
pub fn ops_to_script(ops: &[Operation]) -> (text: String)
    ensures
        text@ == script_text(ops.deep_view()),
{
    let mut text = String::new();
    let mut i: usize = 0;
    while i < ops.len()
        invariant
            i <= ops.len(),
            text@ == script_text(ops.deep_view().take(i as int)),
        decreases ops.len() - i,
    {
        let line = op_to_script(&ops[i]);
        if i > 0 {
            text.append("\n");
        }
        text.append(line.as_str());
        proof {
            let all = ops.deep_view();
            let before = all.take(i as int);
            let now = all.take(i + 1);
            assert(now.drop_last() =~= before);
            assert(now.last() == ops[i as int]@);
            if i == 0 {
                assert(before.len() == 0);
                assert(text@ =~= script_line(now[0]));
            }
        }
        i += 1;
    }
    proof {
        assert(ops.deep_view().take(ops.len() as int) =~= ops.deep_view());
    }
    text
}

} // verus!
