pub mod cycle;
pub mod error;
pub mod ir;
pub mod rung;
pub mod store;
pub mod vm;

pub use error::{Result, VMError};
pub use store::Store;
pub use vm::VM;
