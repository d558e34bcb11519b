use vstd::prelude::*;

use crate::value::ValueType;
use crate::words::Word;

verus! {

/// Why an expression tree could not be compiled.
#[derive(Debug)]
pub enum CompileError {
    /// A list is headed by a name that no registered word carries.
    UnknownOperator { name: String },
    /// A word was given fewer arguments than it consumes.
    ArityMismatch { operator: Word, expected: usize, got: usize },
    /// No procedure of the word accepts the static types of its operands.
    TypeMismatch { operator: Word, operand_types: (ValueType, ValueType) },
    /// A second word was registered under a name that is already taken.
    RegistrationConflict { name: String },
    /// A bare name stands where a value is expected.
    UnexpectedAtom { name: String },
    /// A list is empty or is not headed by a name.
    MalformedList,
    /// The expression, once normalised, nests deeper than the compiler allows.
    NestingTooDeep,
    /// Fewer than two entries were on the type stack when two were taken.
    TypeStackUnderflow,
}

/// The mathematical content of a [`CompileError`], with names as character sequences.
pub enum CompileFault {
    UnknownOperator(Seq<char>),
    ArityMismatch(Word, nat, nat),
    TypeMismatch(Word, ValueType, ValueType),
    RegistrationConflict(Seq<char>),
    UnexpectedAtom(Seq<char>),
    MalformedList,
    NestingTooDeep,
    TypeStackUnderflow,
}

impl View for CompileError {
    type V = CompileFault;

    open spec fn view(&self) -> CompileFault {
        match self {
            CompileError::UnknownOperator { name } => CompileFault::UnknownOperator(name@),
            CompileError::ArityMismatch { operator, expected, got } => CompileFault::ArityMismatch(
                *operator,
                *expected as nat,
                *got as nat,
            ),
            CompileError::TypeMismatch { operator, operand_types } => CompileFault::TypeMismatch(
                *operator,
                operand_types.0,
                operand_types.1,
            ),
            CompileError::RegistrationConflict { name } => CompileFault::RegistrationConflict(
                name@,
            ),
            CompileError::UnexpectedAtom { name } => CompileFault::UnexpectedAtom(name@),
            CompileError::MalformedList => CompileFault::MalformedList,
            CompileError::NestingTooDeep => CompileFault::NestingTooDeep,
            CompileError::TypeStackUnderflow => CompileFault::TypeStackUnderflow,
        }
    }
}

/// Why a compiled program could not be run to the end.
#[derive(Clone, Copy, Debug, PartialEq, Eq, Structural)]
pub enum RuntimeError {
    /// A procedure found fewer values on the stack than it consumes.
    StackUnderflow,
    /// A procedure found operands of another type than the one it was chosen for.
    OperandMismatch,
    /// The exact result does not fit in the operands' integer width.
    Overflow,
}

} // verus!
