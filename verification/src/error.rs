//! Why a compilation stops.
use vstd::prelude::*;

verus! {

/// The reasons for which a source program is not compiled.
#[derive(Debug)]
pub enum CompileError {
    /// A name is used that no enclosing scope declares.
    UndefinedVariable(String),
    /// A name is declared twice in the same scope.
    RedefinedSymbol(String),
    /// A constant is the target of an assignment.
    AssignToConst(String),
    /// The initializer of the named constant or variable has no
    /// compile-time value.
    NonConstantInit(String),
    /// Constant folding divides by zero.
    DivideByZero,
    /// Constant folding leaves the range of `i32`.
    Overflow,
    /// Code generation needs more registers than the target has.
    RegisterExhausted,
    /// Code generation reads a value that never received a register.
    NoRegister,
}

/// The mathematical view of a `CompileError`: names as sequences of characters.
pub enum Fault {
    UndefinedVariable(Seq<char>),
    RedefinedSymbol(Seq<char>),
    AssignToConst(Seq<char>),
    NonConstantInit(Seq<char>),
    DivideByZero,
    Overflow,
    RegisterExhausted,
    NoRegister,
}

impl View for CompileError {
    type V = Fault;

    open spec fn view(&self) -> Fault {
        match self {
            CompileError::UndefinedVariable(s) => Fault::UndefinedVariable(s@),
            CompileError::RedefinedSymbol(s) => Fault::RedefinedSymbol(s@),
            CompileError::AssignToConst(s) => Fault::AssignToConst(s@),
            CompileError::NonConstantInit(s) => Fault::NonConstantInit(s@),
            CompileError::DivideByZero => Fault::DivideByZero,
            CompileError::Overflow => Fault::Overflow,
            CompileError::RegisterExhausted => Fault::RegisterExhausted,
            CompileError::NoRegister => Fault::NoRegister,
        }
    }
}

/// A result with its error taken by its view.
pub open spec fn rview<T>(r: Result<T, CompileError>) -> Result<T, Fault> {
    match r {
        Ok(t) => Ok(t),
        Err(e) => Err(e@),
    }
}

/// The message that describes a fault.
pub open spec fn message_text(f: Fault) -> Seq<char> {
    match f {
        Fault::UndefinedVariable(s) => "undefined variable: "@ + s,
        Fault::RedefinedSymbol(s) => "redefined symbol: "@ + s,
        Fault::AssignToConst(_) => "should not assign to const"@,
        Fault::NonConstantInit(s) => "initializer is not a compile-time constant: "@ + s,
        Fault::DivideByZero => "attempt to divide by zero"@,
        Fault::Overflow => "attempt to compute with overflow"@,
        Fault::RegisterExhausted => "register exhausted: need more than 15 regs"@,
        Fault::NoRegister => "operand has no register"@,
    }
}

impl CompileError {
    /// The message that describes the error.
    pub fn message(&self) -> (m: String)
        ensures
            m@ == message_text(self@),
    {
        match self {
            CompileError::UndefinedVariable(s) => {
                let mut m = String::from_str("undefined variable: ");
                m.append(s.as_str());
                m
            },
            CompileError::RedefinedSymbol(s) => {
                let mut m = String::from_str("redefined symbol: ");
                m.append(s.as_str());
                m
            },
            CompileError::AssignToConst(_) => String::from_str("should not assign to const"),
            CompileError::NonConstantInit(s) => {
                let mut m = String::from_str("initializer is not a compile-time constant: ");
                m.append(s.as_str());
                m
            },
            CompileError::DivideByZero => String::from_str("attempt to divide by zero"),
            CompileError::Overflow => String::from_str("attempt to compute with overflow"),
            CompileError::RegisterExhausted => String::from_str(
                "register exhausted: need more than 15 regs",
            ),
            CompileError::NoRegister => String::from_str("operand has no register"),
        }
    }
}

} // verus!
