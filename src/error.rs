use vstd::prelude::*;

verus! {

/// What went wrong in loading a program or running a cycle. Each variant
/// carries the offending text.
#[derive(Debug)]
pub enum VMError {
    /// The program representation could not be read.
    IrLoad(String),
    /// A guard names a signal or coil that has no stored value.
    NotFound(String),
    /// An unrecognised contact kind or action kind.
    InvalidGuard(String),
    /// The program lacks its rung list or its coil list.
    Execution(String),
}

/// The model of a `VMError`: the same variant, holding characters.
pub enum Fault {
    IrLoad(Seq<char>),
    NotFound(Seq<char>),
    InvalidGuard(Seq<char>),
    Execution(Seq<char>),
}

impl View for VMError {
    type V = Fault;

    open spec fn view(&self) -> Fault {
        match self {
            VMError::IrLoad(s) => Fault::IrLoad(s@),
            VMError::NotFound(s) => Fault::NotFound(s@),
            VMError::InvalidGuard(s) => Fault::InvalidGuard(s@),
            VMError::Execution(s) => Fault::Execution(s@),
        }
    }
}

pub type Result<T> = core::result::Result<T, VMError>;

} // verus!
