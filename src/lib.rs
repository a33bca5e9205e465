//! A virtual machine for the CHIP-8 instruction set: an opcode decoder, a
//! monochrome framebuffer with XOR sprite blitting, and a processor that
//! fetches, decodes and executes one instruction per step.
pub mod display;
pub mod emulator;
pub mod error;
pub mod instruction;
pub mod machine;

pub use display::{Pixel, Pixels, Screen, Sprite, HEIGHT, WIDTH};
pub use emulator::{Emulator, Input, Step, StepResult};
pub use error::Error;
pub use instruction::{to_bcd, Address, Instruction, Op, Register, Value};
