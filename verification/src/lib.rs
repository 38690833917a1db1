//! A verified CHIP-8/SuperChip virtual machine: memory, registers, display
//! bitmap, call stack and timers, together with the instruction decoder and
//! the fetch-decode-execute engine that drives them.

pub mod components;
pub mod execution;
pub mod instruction;
pub mod keyhandler;

pub use components::{Emulator, MachineView, Register, Resolution};
pub use execution::StepError;
pub use instruction::{Instruction, Value};
pub use keyhandler::KeyHandler;
