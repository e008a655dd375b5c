//! Textual rendering of expressions.
//!
//! An expression renders flat, with single spaces and no parentheses:
//! `Leaf(1)` renders as `1`, and a chain renders as `1 + 2 * 3`. The nesting
//! (always to the right) is implicit in the spacing only. A list of rendered
//! expressions is joined by newlines.

use vstd::prelude::*;
use vstd::string::StringExecFns;

use crate::expr::Operation;
use crate::expr::Operator;

verus! {

/// The decimal digit character for a digit value below ten.
pub open spec fn digit_char(d: nat) -> char {
    if d == 0 {
        '0'
    } else if d == 1 {
        '1'
    } else if d == 2 {
        '2'
    } else if d == 3 {
        '3'
    } else if d == 4 {
        '4'
    } else if d == 5 {
        '5'
    } else if d == 6 {
        '6'
    } else if d == 7 {
        '7'
    } else if d == 8 {
        '8'
    } else {
        '9'
    }
}

/// The decimal rendering of a natural number: most significant digit first,
/// no leading zeroes (except for the number 0 itself).
pub open spec fn dec_nat(n: nat) -> Seq<char>
    decreases n,
{
    if n < 10 {
        seq![digit_char(n)]
    } else {
        dec_nat(n / 10).push(digit_char(n % 10))
    }
}

/// The decimal rendering of an integer: a leading `-` for negative values.
pub open spec fn dec_int(v: int) -> Seq<char> {
    if v >= 0 {
        dec_nat(v as nat)
    } else {
        seq!['-'] + dec_nat((-v) as nat)
    }
}

/// The symbol an operator renders as: `+ - * /`.
pub open spec fn spec_display(op: Operator) -> Seq<char> {
    match op {
        Operator::Add => seq!['+'],
        Operator::Subtract => seq!['-'],
        Operator::Multiply => seq!['*'],
        Operator::Divide => seq!['/'],
    }
}

fn digit_str(d: u32) -> (s: &'static str)
    requires
        d < 10,
    ensures
        s@ == seq![digit_char(d as nat)],
{
    if d == 0 {
        proof {
            reveal_strlit("0");
            assert(("0")@ =~= seq![digit_char(d as nat)]);
        }
        "0"
    } else if d == 1 {
        proof {
            reveal_strlit("1");
            assert(("1")@ =~= seq![digit_char(d as nat)]);
        }
        "1"
    } else if d == 2 {
        proof {
            reveal_strlit("2");
            assert(("2")@ =~= seq![digit_char(d as nat)]);
        }
        "2"
    } else if d == 3 {
        proof {
            reveal_strlit("3");
            assert(("3")@ =~= seq![digit_char(d as nat)]);
        }
        "3"
    } else if d == 4 {
        proof {
            reveal_strlit("4");
            assert(("4")@ =~= seq![digit_char(d as nat)]);
        }
        "4"
    } else if d == 5 {
        proof {
            reveal_strlit("5");
            assert(("5")@ =~= seq![digit_char(d as nat)]);
        }
        "5"
    } else if d == 6 {
        proof {
            reveal_strlit("6");
            assert(("6")@ =~= seq![digit_char(d as nat)]);
        }
        "6"
    } else if d == 7 {
        proof {
            reveal_strlit("7");
            assert(("7")@ =~= seq![digit_char(d as nat)]);
        }
        "7"
    } else if d == 8 {
        proof {
            reveal_strlit("8");
            assert(("8")@ =~= seq![digit_char(d as nat)]);
        }
        "8"
    } else {
        proof {
            reveal_strlit("9");
            assert(("9")@ =~= seq![digit_char(d as nat)]);
        }
        "9"
    }
}

fn u32_to_string(n: u32) -> (s: String)
    ensures
        s@ == dec_nat(n as nat),
    decreases n,
{
    if n < 10 {
        String::from_str(digit_str(n))
    } else {
        let mut s = u32_to_string(n / 10);
        s.append(digit_str(n % 10));
        proof {
            assert(s@ =~= dec_nat(n as nat));
        }
        s
    }
}

/// The decimal rendering of an `i32`, with a leading `-` for negatives.
fn i32_to_string(value: i32) -> (s: String)
    ensures
        s@ == dec_int(value as int),
{
    if value >= 0 {
        u32_to_string(value as u32)
    } else {
        let magnitude: u32 = (-(value as i64)) as u32;
        let mut s = String::from_str("-");
        s.append(u32_to_string(magnitude).as_str());
        proof {
            reveal_strlit("-");
            assert(s@ =~= dec_int(value as int));
        }
        s
    }
}

impl Operator {
    /// The operator's symbol, `+ - * /`, as a string.
    pub fn display(self) -> (s: String)
        ensures
            s@ == spec_display(self),
    {
        match self {
            Operator::Add => {
                proof {
                    reveal_strlit("+");
                    assert(("+")@ =~= spec_display(self));
                }
                String::from_str("+")
            },
            Operator::Subtract => {
                proof {
                    reveal_strlit("-");
                    assert(("-")@ =~= spec_display(self));
                }
                String::from_str("-")
            },
            Operator::Multiply => {
                proof {
                    reveal_strlit("*");
                    assert(("*")@ =~= spec_display(self));
                }
                String::from_str("*")
            },
            Operator::Divide => {
                proof {
                    reveal_strlit("/");
                    assert(("/")@ =~= spec_display(self));
                }
                String::from_str("/")
            },
        }
    }
}

impl Operation {
    /// The flat rendering of the expression: operands and operator symbols
    /// separated by single spaces, no parentheses.
    pub open spec fn spec_render(self) -> Seq<char>
        decreases self,
    {
        match self {
            Operation::SingleOperand(value) => dec_int(value as int),
            Operation::Operation(left, op, sub) => dec_int(left as int) + seq![' ']
                + spec_display(op) + seq![' '] + (*sub).spec_render(),
        }
    }

    /// Render the expression as text.
    pub fn render(&self) -> (s: String)
        ensures
            s@ == self.spec_render(),
        decreases *self,
    {
        match self {
            Operation::SingleOperand(value) => i32_to_string(*value),
            Operation::Operation(left, op, sub) => {
                let mut s = i32_to_string(*left);
                s.append(" ");
                s.append(op.display().as_str());
                s.append(" ");
                s.append(sub.render().as_str());
                proof {
                    reveal_strlit(" ");
                    assert(s@ =~= self.spec_render());
                }
                s
            },
        }
    }
}

/// The newline-joined rendering of a list of expressions: empty for an empty
/// list, with exactly one `\n` between neighbours otherwise.
pub open spec fn spec_format(ops: Seq<Operation>) -> Seq<char>
    decreases ops.len(),
{
    if ops.len() == 0 {
        Seq::empty()
    } else if ops.len() == 1 {
        ops[0].spec_render()
    } else {
        spec_format(ops.drop_last()) + seq!['\n'] + ops.last().spec_render()
    }
}

/// Render every expression and join the renderings with newlines.
pub fn format_operations(operations: &Vec<Operation>) -> (s: String)
    ensures
        s@ == spec_format(operations@),
{
    let mut s = String::new();
    for i in 0..operations.len()
        invariant
            s@ == spec_format(operations@.take(i as int)),
    {
        if i > 0 {
            s.append("\n");
        }
        s.append(operations[i].render().as_str());
        proof {
            reveal_strlit("\n");
            assert(operations@.take(i + 1).drop_last() =~= operations@.take(i as int));
            assert(operations@.take(i + 1).last() == operations@[i as int]);
        }
    }
    proof {
        assert(operations@.take(operations@.len() as int) =~= operations@);
    }
    s
}

} // verus!
