//! The emulator core: the processor, its mathematical model, the keypad
//! and the display buffer, and the errors that stop the machine.

use vstd::prelude::*;

pub mod cpu;
pub mod input;
pub mod laws;
pub mod machine;
pub mod ui;

pub use cpu::CPU;
pub use input::Key;
pub use input::Keyboard;
pub use ui::Buffer;
pub use ui::DisplayBuffer;
pub use ui::HEIGHT;
pub use ui::WIDTH;

verus! {

/// Which memory access went past the end of memory.
#[derive(Clone, Copy, Debug, PartialEq, Eq)]
pub enum MemoryAccess {
    /// Reading the bytes of a sprite.
    SpriteRead,
    /// Storing three decimal digits.
    BcdStore,
    /// Copying registers into memory.
    RegisterStore,
    /// Copying memory into registers.
    RegisterLoad,
}

/// Why a program image was rejected.
#[derive(Clone, Copy, Debug, PartialEq, Eq)]
pub enum LoadFault {
    /// The image has no bytes.
    Empty,
    /// The image has `len` bytes, more than fit above the load address.
    TooLarge { len: usize },
}

/// Everything that can stop the machine.
#[derive(Clone, Copy, Debug, PartialEq, Eq)]
pub enum Chip8Error {
    /// The program image is empty or too large.
    LoadError(LoadFault),
    /// The two bytes at `pc` do not both lie in memory.
    PcOutOfBounds { pc: usize },
    /// No instruction has the encoding `opcode`, fetched at `pc`.
    InvalidInstruction { opcode: u16, pc: usize },
    /// An instruction asked for `count` bytes at `address`, past the end of memory.
    MemoryBoundsError { access: MemoryAccess, address: u16, count: usize },
    /// A call with sixteen return addresses already on the stack.
    StackOverflow,
    /// A return with no return address on the stack.
    StackUnderflow,
}

pub type Chip8Result<T> = Result<T, Chip8Error>;

} // verus!
