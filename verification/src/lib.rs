//! A register-and-heap virtual machine for the first language level of the
//! Warren Abstract Machine: compiled instructions build and unify term
//! structures on a shared heap.

pub mod ast;
pub mod machine;
pub mod render;
pub mod sound;
pub mod step;
pub mod store;
pub mod unify;
