//! A CHIP-8 virtual machine core, verified with Verus.
//!
//! The core owns all machine state (memory, registers, call stack,
//! framebuffer, timers, keyboard bitfield) and exposes deterministic
//! state transitions: `reset_emulator`, `load`, `tick` (fetch + decode +
//! execute + timer advance), and validated accessors for every piece of
//! state. Randomness for the `CXNN` opcode is injected by the caller;
//! persistence and event plumbing belong to a host around this crate.

pub mod cpu;
pub mod laws;
pub mod semantics;
pub mod state;
