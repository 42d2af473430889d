use vstd::prelude::*;
use crate::ast::{ASTNode, NodeView, Operator};
use crate::error::EvalError;
use crate::text::{push_signed, signed_text};

verus! {

/// The `i32` that stands for `v` in two's complement: the one that differs
/// from `v` by a multiple of 2^32.
pub open spec fn wrap(v: int) -> i32 {
    let low = v % 0x1_0000_0000;
    if low > i32::MAX {
        (low - 0x1_0000_0000) as i32
    } else {
        low as i32
    }
}

/// The quotient of `l` by `r`, rounded towards zero.
pub open spec fn quotient(l: int, r: int) -> int
    recommends
        r != 0,
{
    if l >= 0 && r > 0 {
        l / r
    } else if l >= 0 {
        -(l / (-r))
    } else if r > 0 {
        -((-l) / r)
    } else {
        (-l) / (-r)
    }
}

/// What `op` makes of two operands: the result in the integers, wrapped to
/// 32 bits; a division by zero is the one fault.
pub open spec fn apply(op: Operator, l: i32, r: i32) -> Result<i32, EvalError> {
    match op {
        Operator::Add => Ok(wrap(l + r)),
        Operator::Sub => Ok(wrap(l - r)),
        Operator::Mul => Ok(wrap(l * r)),
        Operator::Div => if r == 0 {
            Err(EvalError::DivisionByZero)
        } else {
            Ok(wrap(quotient(l as int, r as int)))
        },
    }
}

impl NodeView {
    /// The value of the tree. An identifier reads as zero, whatever was
    /// assigned to it; an assignment and a return have the value of their
    /// operand; a fault in either operand is the fault of the whole.
    pub open spec fn value(self) -> Result<i32, EvalError>
        decreases self,
    {
        match self {
            NodeView::Number(n) => Ok(n),
            NodeView::Identifier(_) => Ok(0),
            NodeView::Assignment(_, value) => value.value(),
            NodeView::BinaryOp { op, left, right } => match left.value() {
                Ok(l) => match right.value() {
                    Ok(r) => apply(op, l, r),
                    Err(fault) => Err(fault),
                },
                Err(fault) => Err(fault),
            },
            NodeView::Return(value) => value.value(),
        }
    }
}

/// Applies `op` to two operands.
pub fn compute(op: Operator, l: i32, r: i32) -> (result: Result<i32, EvalError>)
    ensures
        result == apply(op, l, r),
{
    match op {
        Operator::Add => Ok(l.wrapping_add(r)),
        Operator::Sub => Ok(l.wrapping_sub(r)),
        Operator::Mul => Ok(l.wrapping_mul(r)),
        Operator::Div => {
            if r == 0 {
                Err(EvalError::DivisionByZero)
            } else {
                match l.checked_div(r) {
                    Some(q) => Ok(q),
                    None => Ok(i32::MIN),
                }
            }
        },
    }
}

/// Evaluates syntax trees.
pub struct VM;

/// The line that reports the value `v`.
pub open spec fn report(v: i32) -> Seq<char> {
    "Returned: "@ + signed_text(v as int)
}

impl VM {
    /// Evaluates `ast` and gives the line that reports its value, for the
    /// caller to print.
    pub fn run(ast: ASTNode) -> (result: Result<String, EvalError>)
        ensures
            match ast@.value() {
                Ok(v) => result matches Ok(line) && line@ == report(v),
                Err(fault) => result == Err::<String, EvalError>(fault),
            },
    {
        match VM::eval(ast) {
            Ok(v) => {
                let mut line = "Returned: ".to_owned();
                push_signed(&mut line, v);
                Ok(line)
            },
            Err(fault) => Err(fault),
        }
    }

    /// The value of `node`.
    pub fn eval(node: ASTNode) -> (result: Result<i32, EvalError>)
        ensures
            result == node@.value(),
        decreases node,
    {
        match node {
            ASTNode::Number(n) => Ok(n),
            ASTNode::Identifier(_) => Ok(0),
            ASTNode::Assignment(_, value) => VM::eval(*value),
            ASTNode::BinaryOp { op, left, right } => {
                let l = match VM::eval(*left) {
                    Ok(l) => l,
                    Err(fault) => {
                        return Err(fault);
                    },
                };
                let r = match VM::eval(*right) {
                    Ok(r) => r,
                    Err(fault) => {
                        return Err(fault);
                    },
                };
                compute(op, l, r)
            },
            ASTNode::Return(value) => VM::eval(*value),
        }
    }
}

} // verus!
