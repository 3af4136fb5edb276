//! Code generation for guest memory accesses in a just-in-time compiler.
//!
//! A load or a store looks its address up in a cache of translated pages, checks the permissions of
//! each byte and accesses the host's memory; where one of these fails, it calls the emulator.
//!
//! - [`ram`] generates whole loads and stores, [`mem`] the pieces that they are made of.
//! - [`ir`] models the function that is being built, [`code`] says which instructions are added to
//!   it, and [`clif`] holds the calls into Cranelift.
//! - [`machine`] and [`flow`] say what the instructions do when they run, and [`laws`] and [`paths`]
//!   what the generated code does, in the terms of [`access`], [`pages`] and [`bytes`].
//! - [`protocol`] is about the order in which an access asks for work of the rest of the compiler, and
//!   [`whole`] about a whole access, from its operands to the memory, the output and the calls.
//! - [`meaning`] says what the numbers and the runs mean in terms of digits, bytes and bits, and
//!   [`shape`] and [`listing`] which blocks and instructions the generated code has.
//! - [`layout`], [`pcode`] and [`translator`] describe the emulator, its guest code and the state of
//!   the compiler.

pub mod access;
pub mod bytes;
pub mod clif;
pub mod code;
pub mod flow;
pub mod ir;
pub mod laws;
pub mod layout;
pub mod listing;
pub mod machine;
pub mod meaning;
pub mod mem;
pub mod pages;
pub mod paths;
pub mod pcode;
pub mod protocol;
pub mod ram;
pub mod shape;
pub mod translator;
pub mod whole;
