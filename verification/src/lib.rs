//! A verified CHIP-8 / SUPER-CHIP virtual machine.
//!
//! The `backend` module holds the interpreter cores, the display buffer,
//! the keypad state machine and the error type; every function in it is
//! verified against a mathematical model of the machine.

pub mod backend;
