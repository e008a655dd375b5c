//! Operators and expression trees.
//!
//! An [`Operation`] is a right-leaning chain: the left side of every node is
//! a single operand and the right side is the rest of the chain, so the only
//! reachable shape over operands `a, b, c, d` is `a op1 (b op2 (c op3 d))`.

use vstd::prelude::*;

verus! {

/// The four binary arithmetic operators of the game.
#[derive(Clone, Copy, Debug, PartialEq, Eq, Structural)]
pub enum Operator {
    Add,
    Subtract,
    Multiply,
    Divide,
}

/// Inputs that the generators reject before producing anything.
#[derive(Clone, Copy, Debug, PartialEq, Eq, Structural)]
pub enum SearchError {
    /// The operand list has 32 or more entries; subset enumeration is driven
    /// by a 32-bit mask and refuses such inputs outright.
    SetTooLarge,
    /// An empty operand sequence was given where at least one operand is
    /// needed to build an expression.
    EmptyInput,
}

/// A fully built arithmetic expression over `i32` operands.
#[derive(Debug)]
pub enum Operation {
    /// A bare operand, combined with nothing.
    SingleOperand(i32),
    /// One operand on the left, combined by the operator with the value of
    /// the whole chain on the right.
    Operation(i32, Operator, Box<Operation>),
}

/// Integer division truncated toward zero, as Rust's `/` computes it on
/// primitive integers (the result of the unused `d == 0` branch is never
/// relied on).
pub open spec fn trunc_div(x: int, d: int) -> int {
    if x == 0 {
        0
    } else if x > 0 && d > 0 {
        x / d
    } else if x < 0 && d < 0 {
        (x * -1) / (d * -1)
    } else if x < 0 {
        ((x * -1) / d) * -1
    } else {
        (x / (d * -1)) * -1
    }
}

/// Division policy of the game: a zero divisor yields 0 (a deliberate rule,
/// not an error); otherwise the quotient is truncated toward zero, wrapping
/// around on the one overflowing case `i32::MIN / -1`.
pub open spec fn spec_divide(left: i32, right: i32) -> i32 {
    if right == 0 {
        0
    } else {
        let q = trunc_div(left as int, right as int);
        if q < i32::MIN || q > i32::MAX {
            i32::MIN
        } else {
            q as i32
        }
    }
}

/// What applying one operator to two operand values returns. Addition,
/// subtraction and multiplication wrap around on 32-bit overflow; division
/// follows [`spec_divide`].
pub open spec fn spec_apply(op: Operator, left: i32, right: i32) -> i32 {
    match op {
        Operator::Add => vstd::wrapping::i32_specs::wrapping_add(left, right),
        Operator::Subtract => vstd::wrapping::i32_specs::wrapping_sub(left, right),
        Operator::Multiply => vstd::wrapping::i32_specs::wrapping_mul(left, right),
        Operator::Divide => spec_divide(left, right),
    }
}

impl Operator {
    /// All four operators, in the fixed enumeration order used by expression
    /// generation (division before multiplication).
    pub fn values() -> (ops: Vec<Operator>)
        ensures
            ops@ == seq![
                Operator::Add,
                Operator::Subtract,
                Operator::Divide,
                Operator::Multiply,
            ],
    {
        let mut ops: Vec<Operator> = Vec::new();
        ops.push(Operator::Add);
        ops.push(Operator::Subtract);
        ops.push(Operator::Divide);
        ops.push(Operator::Multiply);
        proof {
            assert(ops@ =~= seq![
                Operator::Add,
                Operator::Subtract,
                Operator::Divide,
                Operator::Multiply,
            ]);
        }
        ops
    }

    /// Apply this operator to two operand values under the game's arithmetic:
    /// wrapping on overflow, and a zero divisor yielding 0.
    pub fn apply(self, left: i32, right: i32) -> (result: i32)
        ensures
            result == spec_apply(self, left, right),
    {
        match self {
            Operator::Add => left.wrapping_add(right),
            Operator::Subtract => left.wrapping_sub(right),
            Operator::Multiply => left.wrapping_mul(right),
            Operator::Divide => {
                if right == 0 {
                    0
                } else {
                    match left.checked_div(right) {
                        Some(q) => q,
                        None => i32::MIN,
                    }
                }
            },
        }
    }
}

impl Operation {
    /// The value of the expression: evaluate the right chain first, then
    /// apply the node's operator. Total: division by zero yields 0 and
    /// overflow wraps, so every expression has a value.
    pub open spec fn spec_evaluate(self) -> i32
        decreases self,
    {
        match self {
            Operation::SingleOperand(value) => value,
            Operation::Operation(left, op, sub) => spec_apply(op, left, (*sub).spec_evaluate()),
        }
    }

    /// Evaluate the expression.
    pub fn evaluate(&self) -> (result: i32)
        ensures
            result == self.spec_evaluate(),
        decreases *self,
    {
        match self {
            Operation::SingleOperand(value) => *value,
            Operation::Operation(left, op, sub) => op.apply(*left, sub.evaluate()),
        }
    }

    /// The operands of the expression, left to right: a chain over `n`
    /// operands holds exactly `n` of them and applies `n - 1` operators.
    pub open spec fn spec_operands(self) -> Seq<i32>
        decreases self,
    {
        match self {
            Operation::SingleOperand(value) => seq![value],
            Operation::Operation(left, op, sub) => seq![left] + (*sub).spec_operands(),
        }
    }

    /// An equal copy of the expression (the derived `Clone` carries no
    /// contract, so the copy is rebuilt node by node).
    pub fn duplicate(&self) -> (copy: Operation)
        ensures
            copy == *self,
        decreases *self,
    {
        match self {
            Operation::SingleOperand(value) => Operation::SingleOperand(*value),
            Operation::Operation(left, op, sub) => Operation::Operation(
                *left,
                *op,
                Box::new(sub.duplicate()),
            ),
        }
    }
}

} // verus!
