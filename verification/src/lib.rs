//! The core of a verifiable-execution pipeline: what a guest computes and
//! commits, how the commitments are laid out in the journal, and how the
//! host reads a receipt.
//!
//! - [`wire`]: the big-endian encodings of 32-bit and 64-bit words.
//! - [`journal`]: committed values, the append-only journal, and the
//!   decoder that reads a journal back under a layout.
//! - [`recurrence`] and [`digest`]: the two families of guest computation.
//! - [`context`] and [`guest`]: the inputs of an execution, and its state
//!   while it runs.
//! - [`engine`]: runs a guest program, a list of stages, on a context.
//! - [`programs`]: the guest programs that ship with the library.
//! - [`receipt`]: receipts, and what the host makes of the proving
//!   backend's reports.

pub mod context;
pub mod digest;
pub mod engine;
pub mod guest;
pub mod journal;
pub mod programs;
pub mod receipt;
pub mod recurrence;
pub mod wire;
