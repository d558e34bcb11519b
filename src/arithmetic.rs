use vstd::prelude::*;

use crate::cvm::{emit_result, ProgramBuilder, Stack};
use crate::error::{CompileError, RuntimeError};
use crate::value::{Value, ValueType};
use crate::words::Word;

verus! {

/// A type-specialised procedure: it takes two operands from the stack and
/// pushes one result.
#[derive(Clone, Copy, Debug, PartialEq, Eq, Structural)]
pub enum Proc {
    AddInt,
    AddUInt,
    MulInt,
    MulUInt,
}

impl Proc {
    /// The type of the value the procedure pushes.
    pub open spec fn spec_output(self) -> ValueType {
        match self {
            Proc::AddInt | Proc::MulInt => ValueType::Int,
            Proc::AddUInt | Proc::MulUInt => ValueType::UInt,
        }
    }

    /// What the procedure makes of its operands `a` (pushed first) and `b`:
    /// the exact sum or product, when it fits the operands' width.
    pub open spec fn apply(self, a: Value, b: Value) -> Result<Value, RuntimeError> {
        match (self, a, b) {
            (Proc::AddInt, Value::Int(x), Value::Int(y)) => {
                if i128::MIN <= x + y <= i128::MAX {
                    Ok(Value::Int((x + y) as i128))
                } else {
                    Err(RuntimeError::Overflow)
                }
            },
            (Proc::AddUInt, Value::UInt(x), Value::UInt(y)) => {
                if x + y <= u128::MAX {
                    Ok(Value::UInt((x + y) as u128))
                } else {
                    Err(RuntimeError::Overflow)
                }
            },
            (Proc::MulInt, Value::Int(x), Value::Int(y)) => {
                if i128::MIN <= x * y <= i128::MAX {
                    Ok(Value::Int((x * y) as i128))
                } else {
                    Err(RuntimeError::Overflow)
                }
            },
            (Proc::MulUInt, Value::UInt(x), Value::UInt(y)) => {
                if x * y <= u128::MAX {
                    Ok(Value::UInt((x * y) as u128))
                } else {
                    Err(RuntimeError::Overflow)
                }
            },
            _ => Err(RuntimeError::OperandMismatch),
        }
    }

    /// The stack after the procedure ran on `stack`.
    pub open spec fn run_on(self, stack: Seq<Value>) -> Result<Seq<Value>, RuntimeError> {
        if stack.len() < 2 {
            Err(RuntimeError::StackUnderflow)
        } else {
            match self.apply(stack[stack.len() - 2], stack.last()) {
                Ok(v) => Ok(stack.drop_last().drop_last().push(v)),
                Err(e) => Err(e),
            }
        }
    }

    pub fn output(&self) -> (r: ValueType)
        ensures
            r == self.spec_output(),
    {
        match self {
            Proc::AddInt | Proc::MulInt => ValueType::Int,
            Proc::AddUInt | Proc::MulUInt => ValueType::UInt,
        }
    }

    /// Runs the procedure on `stack`.
    pub fn execute(&self, stack: &mut Stack) -> (r: Result<(), RuntimeError>)
        ensures
            match r {
                Ok(()) => self.run_on(old(stack)@) == Ok::<Seq<Value>, RuntimeError>(final(stack)@),
                Err(e) => self.run_on(old(stack)@) == Err::<Seq<Value>, RuntimeError>(e),
            },
    {
        let (a, b) = match stack.consume_two() {
            Ok(pair) => pair,
            Err(e) => return Err(e),
        };
        let v = match (self, a, b) {
            (Proc::AddInt, Value::Int(x), Value::Int(y)) => match x.checked_add(y) {
                Some(z) => Value::Int(z),
                None => return Err(RuntimeError::Overflow),
            },
            (Proc::AddUInt, Value::UInt(x), Value::UInt(y)) => match x.checked_add(y) {
                Some(z) => Value::UInt(z),
                None => return Err(RuntimeError::Overflow),
            },
            (Proc::MulInt, Value::Int(x), Value::Int(y)) => match x.checked_mul(y) {
                Some(z) => Value::Int(z),
                None => return Err(RuntimeError::Overflow),
            },
            (Proc::MulUInt, Value::UInt(x), Value::UInt(y)) => match x.checked_mul(y) {
                Some(z) => Value::UInt(z),
                None => return Err(RuntimeError::Overflow),
            },
            _ => return Err(RuntimeError::OperandMismatch),
        };
        stack.push(v);
        Ok(())
    }
}

/// The procedure that a word runs on operands of static types `a` and `b`, if any.
pub open spec fn dispatch(w: Word, a: ValueType, b: ValueType) -> Option<Proc> {
    match (w, a, b) {
        (Word::Add, ValueType::Int, ValueType::Int) => Some(Proc::AddInt),
        (Word::Add, ValueType::UInt, ValueType::UInt) => Some(Proc::AddUInt),
        (Word::Mul, ValueType::Int, ValueType::Int) => Some(Proc::MulInt),
        (Word::Mul, ValueType::UInt, ValueType::UInt) => Some(Proc::MulUInt),
        _ => None,
    }
}

impl Word {
    /// Takes the two top entries of the type stack and emits the procedure
    /// that the word runs on them; operand types that no procedure accepts
    /// are refused.
    pub fn emit(&self, builder: &mut ProgramBuilder) -> (r: Result<(), CompileError>)
        ensures
            final(builder).registry() == old(builder).registry(),
            emit_result(*self, old(builder)@, r, final(builder)@),
            r is Err ==> final(builder)@ == old(builder)@,
    {
        let (a, b) = match builder.peek_two() {
            Ok(pair) => pair,
            Err(e) => return Err(e),
        };
        let p = match (self, a, b) {
            (Word::Add, ValueType::Int, ValueType::Int) => Proc::AddInt,
            (Word::Add, ValueType::UInt, ValueType::UInt) => Proc::AddUInt,
            (Word::Mul, ValueType::Int, ValueType::Int) => Proc::MulInt,
            (Word::Mul, ValueType::UInt, ValueType::UInt) => Proc::MulUInt,
            _ => return Err(CompileError::TypeMismatch { operator: *self, operand_types: (a, b) }),
        };
        let _ = builder.consume_two();
        builder.push_proc(p);
        Ok(())
    }
}

} // verus!
