//! Inline function hooks for a running process.
//!
//! A hook redirects the entry of a target function, known only by its
//! address, to an interceptor. The interceptor saves the caller's state,
//! runs a user callback and the original function in the order that the
//! hook's kind prescribes, and hands control back as if nothing had happened.
//!
//! The crate holds the rules of that machinery and their proofs:
//!
//! * [`arch`]: the two supported calling conventions and their constants;
//! * [`endian`]: little-endian encoding of addresses;
//! * [`patch`]: the jump written over a target, and how it is taken back;
//! * [`hook`]: one hook, its backup of the overwritten bytes and its state;
//! * [`policy`]: what happens, in which order, when a hooked target is called;
//! * [`machine`]: a small machine on which interceptors can be run;
//! * [`trampoline`]: the instructions of the interceptors;
//! * [`soundness`]: what the interceptors do to registers and stack, proved;
//! * [`assembly`]: the interceptors as assembler text;
//! * [`names`] and [`generate`]: what is generated for one hook.

pub mod arch;
pub mod assembly;
pub mod endian;
pub mod generate;
pub mod hook;
pub mod machine;
pub mod names;
pub mod patch;
pub mod policy;
pub mod soundness;
pub mod trampoline;

pub use generate::{hook_after, hook_before, hook_once};
