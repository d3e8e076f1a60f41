//! The instruction-processing core of a CHIP-8 virtual machine: machine
//! state, the fetch-decode-execute step, the monochrome display buffer and
//! the sixteen-key keypad, each with a mathematical model and a verified
//! contract.

pub mod emulator;
