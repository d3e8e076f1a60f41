//! The machine as mathematics: its state, what each instruction does to it,
//! and what one tick does. The contracts of the processor are stated over
//! these functions.

use crate::emulator::input::lowest_pressed;
use crate::emulator::input::KEY_COUNT;
use crate::emulator::ui::blank;
use crate::emulator::ui::blit;
use crate::emulator::ui::collides;
use crate::emulator::ui::Frame;
use crate::emulator::Chip8Error;
use crate::emulator::Chip8Result;
use crate::emulator::MemoryAccess;
use vstd::prelude::*;

verus! {

/// Where a program image is placed in memory, and where execution starts.
pub const LOAD_ADDRESS: usize = 0x200;

/// Bytes of addressable memory.
pub const MEMORY_SIZE: usize = 4096;

/// The longest program image that fits above the load address.
pub const MAX_PROGRAM_SIZE: usize = MEMORY_SIZE - LOAD_ADDRESS;

/// Return addresses that the call stack can hold.
pub const MAX_STACK_DEPTH: usize = 16;

/// General registers, `V0` to `VF`.
pub const REGISTER_COUNT: usize = 16;

/// The register that instructions use as carry, borrow and collision flag.
pub const FLAG: usize = 0xf;

/// Bytes of one glyph of the built-in font.
pub const SPRITE_SIZE: u16 = 5;

/// Bytes of the built-in font: sixteen glyphs of `SPRITE_SIZE` bytes.
pub const FONT_SIZE: usize = 80;

/// The built-in font, one glyph for each hexadecimal digit, in order.
pub const SPRITES: [u8; FONT_SIZE] = [
    0xf0, 0x90, 0x90, 0x90, 0xf0,
    0x20, 0x60, 0x20, 0x20, 0x70,
    0xf0, 0x10, 0xf0, 0x80, 0xf0,
    0xf0, 0x10, 0xf0, 0x10, 0xf0,
    0x90, 0x90, 0xf0, 0x10, 0x10,
    0xf0, 0x80, 0xf0, 0x10, 0xf0,
    0xf0, 0x80, 0xf0, 0x90, 0xf0,
    0xf0, 0x10, 0x20, 0x40, 0x40,
    0xf0, 0x90, 0xf0, 0x90, 0xf0,
    0xf0, 0x90, 0xf0, 0x10, 0xf0,
    0xf0, 0x90, 0xf0, 0x90, 0x90,
    0xe0, 0x90, 0xe0, 0x90, 0xe0,
    0xf0, 0x80, 0x80, 0x80, 0xf0,
    0xe0, 0x90, 0x90, 0x90, 0xe0,
    0xf0, 0x80, 0xf0, 0x80, 0xf0,
    0xf0, 0x80, 0xf0, 0x80, 0x80,
];

/// The state of the machine as mathematics: what the contracts of the
/// processor speak of.
#[verifier::ext_equal]
pub struct Machine {
    /// Address of the next instruction.
    pub pc: int,
    /// The `MEMORY_SIZE` bytes of memory.
    pub memory: Seq<u8>,
    /// The registers `V0` to `VF`.
    pub registers: Seq<u8>,
    /// The address register `I`.
    pub i: u16,
    /// The delay timer.
    pub delay: u8,
    /// The sound timer.
    pub sound: u8,
    /// The return addresses of the calls in progress, the latest last.
    pub stack: Seq<u16>,
}

/// How one tick ended: its result, and the machine and the display after it.
pub struct Outcome {
    pub result: Chip8Result<()>,
    pub machine: Machine,
    pub frame: Frame,
}

/// Memory right after loading `program`: the font at address 0, the program
/// at `LOAD_ADDRESS`, zero everywhere else.
pub open spec fn initial_memory(program: Seq<u8>) -> Seq<u8> {
    Seq::new(
        MEMORY_SIZE as nat,
        |address: int|
            if address < FONT_SIZE {
                SPRITES[address]
            } else if LOAD_ADDRESS <= address < LOAD_ADDRESS + program.len() {
                program[address - LOAD_ADDRESS]
            } else {
                0u8
            },
    )
}

/// Whether the key with digit `code` is down in `keys`.
pub open spec fn key_is_down(keys: Seq<bool>, code: u8) -> bool {
    code < KEY_COUNT && keys[code as int]
}

/// The three decimal digits of `value`: hundreds, tens, ones.
pub open spec fn bcd_digits(value: u8) -> (u8, u8, u8) {
    ((value / 100) as u8, ((value / 10) % 10) as u8, (value % 10) as u8)
}

impl Machine {
    /// The sizes that every machine state has.
    pub open spec fn wf(self) -> bool {
        &&& self.pc >= 0
        &&& self.memory.len() == MEMORY_SIZE
        &&& self.registers.len() == REGISTER_COUNT
        &&& self.stack.len() <= MAX_STACK_DEPTH
    }

    /// The machine as it starts on the given memory: execution at
    /// `LOAD_ADDRESS`, registers and timers at zero, no call in progress.
    pub open spec fn boot(memory: Seq<u8>) -> Machine {
        Machine {
            pc: LOAD_ADDRESS as int,
            memory,
            registers: Seq::new(REGISTER_COUNT as nat, |r: int| 0u8),
            i: 0,
            delay: 0,
            sound: 0,
            stack: Seq::empty(),
        }
    }

    /// Whether the two bytes of an instruction can be read at `pc`.
    pub open spec fn can_fetch(self) -> bool {
        0 <= self.pc && self.pc + 1 < MEMORY_SIZE
    }

    /// First byte of the instruction at `pc`.
    pub open spec fn high(self) -> u8 {
        self.memory[self.pc]
    }

    /// Second byte of the instruction at `pc`, which is also its 8-bit immediate.
    pub open spec fn low(self) -> u8 {
        self.memory[self.pc + 1]
    }

    /// The instruction word at `pc`, first byte first.
    pub open spec fn opcode(self) -> u16 {
        (self.high() * 256 + self.low()) as u16
    }

    /// The 12-bit immediate of the instruction at `pc`.
    pub open spec fn nnn(self) -> int {
        (self.high() % 16) * 256 + self.low()
    }

    /// The machine with the program counter on the next instruction.
    pub open spec fn advance(self) -> Machine {
        Machine { pc: self.pc + 2, ..self }
    }

    /// The machine with the program counter past the next instruction where
    /// `skip` holds, on the next instruction where it does not.
    pub open spec fn advance_skipping(self, skip: bool) -> Machine {
        Machine { pc: self.pc + if skip { 4int } else { 2int }, ..self }
    }

    /// The machine with `value` in register `x`.
    pub open spec fn with_register(self, x: int, value: u8) -> Machine {
        Machine { registers: self.registers.update(x, value), ..self }
    }

    /// The machine after one tick of both timers: each goes down by one
    /// unless it is zero.
    pub open spec fn decrement_timers(self) -> Machine {
        Machine {
            delay: if self.delay > 0 { (self.delay - 1) as u8 } else { 0 },
            sound: if self.sound > 0 { (self.sound - 1) as u8 } else { 0 },
            ..self
        }
    }

    pub open spec fn jump(self, addr: int) -> Machine {
        Machine { pc: addr, ..self }
    }

    /// Pushes the address of the next instruction and jumps.
    pub open spec fn call(self, addr: int) -> Machine {
        Machine { pc: addr, stack: self.stack.push((self.pc + 2) as u16), ..self }
    }

    /// Pops the latest return address into the program counter.
    pub open spec fn ret(self) -> Machine {
        Machine { pc: self.stack.last() as int, stack: self.stack.drop_last(), ..self }
    }

    pub open spec fn skip_reg_imm_eq(self, x: int, byte: u8) -> Machine {
        self.advance_skipping(self.registers[x] == byte)
    }

    pub open spec fn skip_reg_imm_neq(self, x: int, byte: u8) -> Machine {
        self.advance_skipping(self.registers[x] != byte)
    }

    pub open spec fn skip_reg_reg_eq(self, x: int, y: int) -> Machine {
        self.advance_skipping(self.registers[x] == self.registers[y])
    }

    pub open spec fn skip_reg_reg_neq(self, x: int, y: int) -> Machine {
        self.advance_skipping(self.registers[x] != self.registers[y])
    }

    pub open spec fn load_imm(self, x: int, byte: u8) -> Machine {
        self.with_register(x, byte).advance()
    }

    /// Adds modulo 256; no flag is touched.
    pub open spec fn add_imm(self, x: int, byte: u8) -> Machine {
        self.with_register(x, ((self.registers[x] + byte) % 256) as u8).advance()
    }

    pub open spec fn load_reg(self, x: int, y: int) -> Machine {
        self.with_register(x, self.registers[y]).advance()
    }

    pub open spec fn or_reg(self, x: int, y: int) -> Machine {
        self.with_register(x, self.registers[x] | self.registers[y]).advance()
    }

    pub open spec fn and_reg(self, x: int, y: int) -> Machine {
        self.with_register(x, self.registers[x] & self.registers[y]).advance()
    }

    pub open spec fn xor_reg(self, x: int, y: int) -> Machine {
        self.with_register(x, self.registers[x] ^ self.registers[y]).advance()
    }

    /// Adds modulo 256 and sets the flag to the carry. Where `x` is the flag
    /// register itself, the carry is what stays in it.
    pub open spec fn add_reg(self, x: int, y: int) -> Machine {
        let sum = self.registers[x] + self.registers[y];
        self.with_register(x, (sum % 256) as u8).with_register(
            FLAG as int,
            if sum > 255 { 1u8 } else { 0u8 },
        ).advance()
    }

    /// Puts `V[minuend] - V[subtrahend]` modulo 256 into register `dest` and
    /// sets the flag to 1 where nothing was borrowed, to 0 where the
    /// subtrahend was the larger.
    pub open spec fn sub_reg_with_dest(self, minuend: int, subtrahend: int, dest: int) -> Machine {
        let difference = self.registers[minuend] - self.registers[subtrahend];
        self.with_register(dest, (difference % 256) as u8).with_register(
            FLAG as int,
            if difference >= 0 { 1u8 } else { 0u8 },
        ).advance()
    }

    /// `Vx = Vx - Vy`.
    pub open spec fn sub_reg(self, x: int, y: int) -> Machine {
        self.sub_reg_with_dest(x, y, x)
    }

    /// `Vx = Vy - Vx`.
    pub open spec fn subn_reg(self, x: int, y: int) -> Machine {
        self.sub_reg_with_dest(y, x, x)
    }

    /// Sets the flag to the lowest bit of `Vx`, then halves `Vx`.
    pub open spec fn shr_reg(self, x: int) -> Machine {
        let flagged = self.with_register(FLAG as int, self.registers[x] % 2);
        flagged.with_register(x, flagged.registers[x] / 2).advance()
    }

    /// Sets the flag to the highest bit of `Vx`, then doubles `Vx` modulo 256.
    pub open spec fn shl_reg(self, x: int) -> Machine {
        let flagged = self.with_register(FLAG as int, self.registers[x] / 128);
        flagged.with_register(x, ((flagged.registers[x] * 2) % 256) as u8).advance()
    }

    pub open spec fn set_i(self, addr: u16) -> Machine {
        Machine { i: addr, ..self }.advance()
    }

    pub open spec fn jump_v0(self, addr: int) -> Machine {
        self.jump(self.registers[0] + addr)
    }

    /// Puts `random & byte` into `Vx`.
    pub open spec fn load_and_imm(self, x: int, random: u8, byte: u8) -> Machine {
        self.with_register(x, random & byte).advance()
    }

    /// The `count` bytes of memory from `I` on.
    pub open spec fn sprite(self, count: int) -> Seq<u8> {
        self.memory.subrange(self.i as int, self.i + count)
    }

    /// The machine after drawing `count` bytes from `I` at column `Vx`, row
    /// `Vy`: the flag tells whether a lit pixel went off.
    pub open spec fn draw_sprite(self, pixels: Seq<Seq<bool>>, x: int, y: int, count: int) -> Machine {
        let hit = collides(
            pixels,
            self.sprite(count),
            self.registers[x] as int,
            self.registers[y] as int,
        );
        self.with_register(FLAG as int, if hit { 1u8 } else { 0u8 }).advance()
    }

    /// The display after drawing `count` bytes from `I` at column `Vx`, row
    /// `Vy`.
    pub open spec fn drawn(self, pixels: Seq<Seq<bool>>, x: int, y: int, count: int) -> Frame {
        Frame {
            pixels: blit(
                pixels,
                self.sprite(count),
                self.registers[x] as int,
                self.registers[y] as int,
            ),
            is_dirty: true,
        }
    }

    pub open spec fn skip_keydown(self, x: int, keys: Seq<bool>) -> Machine {
        self.advance_skipping(key_is_down(keys, self.registers[x]))
    }

    pub open spec fn skip_not_keydown(self, x: int, keys: Seq<bool>) -> Machine {
        self.advance_skipping(!key_is_down(keys, self.registers[x]))
    }

    pub open spec fn load_delay_timer(self, x: int) -> Machine {
        self.with_register(x, self.delay).advance()
    }

    pub open spec fn set_delay_timer(self, x: int) -> Machine {
        Machine { delay: self.registers[x], ..self }.advance()
    }

    pub open spec fn set_sound_timer(self, x: int) -> Machine {
        Machine { sound: self.registers[x], ..self }.advance()
    }

    /// Where a key is down, its digit goes into `Vx` and execution goes on;
    /// where none is, nothing changes, so that the instruction runs again.
    pub open spec fn wait_keypress(self, x: int, keys: Seq<bool>) -> Machine {
        match lowest_pressed(keys) {
            Some(code) => self.with_register(x, code).advance(),
            None => self,
        }
    }

    /// Adds `Vx` to `I` modulo 65536; no flag is touched.
    pub open spec fn add_i_reg(self, x: int) -> Machine {
        Machine { i: ((self.i + self.registers[x]) % 0x10000) as u16, ..self }.advance()
    }

    /// Points `I` at the glyph of the digit in `Vx`.
    pub open spec fn load_sprite_address(self, x: int) -> Machine {
        Machine { i: (SPRITE_SIZE * self.registers[x]) as u16, ..self }.advance()
    }

    /// Stores the hundreds, tens and ones of `Vx` at `I`, `I + 1`, `I + 2`.
    pub open spec fn store_bcd_representation(self, x: int) -> Machine {
        let (hundreds, tens, ones) = bcd_digits(self.registers[x]);
        Machine {
            memory: self.memory.update(self.i as int, hundreds).update(self.i + 1, tens).update(
                self.i + 2,
                ones,
            ),
            ..self
        }.advance()
    }

    /// Copies `V0` to `Vx`, inclusive, to memory from `I` on.
    pub open spec fn store_registers(self, x: int) -> Machine {
        Machine {
            memory: Seq::new(
                MEMORY_SIZE as nat,
                |address: int|
                    if self.i <= address <= self.i + x {
                        self.registers[address - self.i]
                    } else {
                        self.memory[address]
                    },
            ),
            ..self
        }.advance()
    }

    /// Copies memory from `I` on into `V0` to `Vx`, inclusive.
    pub open spec fn read_registers(self, x: int) -> Machine {
        Machine {
            registers: Seq::new(
                REGISTER_COUNT as nat,
                |r: int|
                    if r <= x {
                        self.memory[self.i + r]
                    } else {
                        self.registers[r]
                    },
            ),
            ..self
        }.advance()
    }

    /// An instruction that succeeds and leaves the display alone.
    pub open spec fn done(self, frame: Frame) -> Outcome {
        Outcome { result: Ok(()), machine: self, frame }
    }

    /// An instruction that fails: machine and display stay as they are.
    pub open spec fn failed(self, frame: Frame, error: Chip8Error) -> Outcome {
        Outcome { result: Err(error), machine: self, frame }
    }

    /// Runs the instruction at `pc`, which must be readable. Of instructions
    /// that share their first digit, the one written first is tried first.
    /// `random` is the byte that the random instruction draws.
    pub open spec fn execute(self, keys: Seq<bool>, frame: Frame, random: u8) -> Outcome {
        let low = self.low();
        let a = self.high() / 16;
        let x = (self.high() % 16) as int;
        let y = (low / 16) as int;
        let b = low % 16;
        let nnn = self.nnn();
        if a == 0x0 && x == 0x0 && y == 0xe && b == 0x0 {
            self.advance().done(Frame { pixels: blank(), is_dirty: true })
        } else if a == 0x0 && x == 0x0 && y == 0xe && b == 0xe {
            if self.stack.len() == 0 {
                self.failed(frame, Chip8Error::StackUnderflow)
            } else {
                self.ret().done(frame)
            }
        } else if a == 0x0 {
            self.advance().done(frame)
        } else if a == 0x1 {
            self.jump(nnn).done(frame)
        } else if a == 0x2 {
            if self.stack.len() >= MAX_STACK_DEPTH {
                self.failed(frame, Chip8Error::StackOverflow)
            } else {
                self.call(nnn).done(frame)
            }
        } else if a == 0x3 {
            self.skip_reg_imm_eq(x, low).done(frame)
        } else if a == 0x4 {
            self.skip_reg_imm_neq(x, low).done(frame)
        } else if a == 0x5 && b == 0x0 {
            self.skip_reg_reg_eq(x, y).done(frame)
        } else if a == 0x6 {
            self.load_imm(x, low).done(frame)
        } else if a == 0x7 {
            self.add_imm(x, low).done(frame)
        } else if a == 0x8 && b == 0x0 {
            self.load_reg(x, y).done(frame)
        } else if a == 0x8 && b == 0x1 {
            self.or_reg(x, y).done(frame)
        } else if a == 0x8 && b == 0x2 {
            self.and_reg(x, y).done(frame)
        } else if a == 0x8 && b == 0x3 {
            self.xor_reg(x, y).done(frame)
        } else if a == 0x8 && b == 0x4 {
            self.add_reg(x, y).done(frame)
        } else if a == 0x8 && b == 0x5 {
            self.sub_reg(x, y).done(frame)
        } else if a == 0x8 && b == 0x6 {
            self.shr_reg(x).done(frame)
        } else if a == 0x8 && b == 0x7 {
            self.subn_reg(x, y).done(frame)
        } else if a == 0x8 && b == 0xe {
            self.shl_reg(x).done(frame)
        } else if a == 0x9 && b == 0x0 {
            self.skip_reg_reg_neq(x, y).done(frame)
        } else if a == 0xa {
            self.set_i(nnn as u16).done(frame)
        } else if a == 0xb {
            self.jump_v0(nnn).done(frame)
        } else if a == 0xc {
            self.load_and_imm(x, random, low).done(frame)
        } else if a == 0xd {
            if self.i + b > MEMORY_SIZE {
                self.failed(
                    frame,
                    Chip8Error::MemoryBoundsError {
                        access: MemoryAccess::SpriteRead,
                        address: self.i,
                        count: b as usize,
                    },
                )
            } else {
                self.draw_sprite(frame.pixels, x, y, b as int).done(
                    self.drawn(frame.pixels, x, y, b as int),
                )
            }
        } else if a == 0xe && y == 0x9 && b == 0xe {
            self.skip_keydown(x, keys).done(frame)
        } else if a == 0xe && y == 0xa && b == 0x1 {
            self.skip_not_keydown(x, keys).done(frame)
        } else if a == 0xf && y == 0x0 && b == 0x7 {
            self.load_delay_timer(x).done(frame)
        } else if a == 0xf && y == 0x0 && b == 0xa {
            self.wait_keypress(x, keys).done(frame)
        } else if a == 0xf && y == 0x1 && b == 0x5 {
            self.set_delay_timer(x).done(frame)
        } else if a == 0xf && y == 0x1 && b == 0x8 {
            self.set_sound_timer(x).done(frame)
        } else if a == 0xf && y == 0x1 && b == 0xe {
            self.add_i_reg(x).done(frame)
        } else if a == 0xf && y == 0x2 && b == 0x9 {
            self.load_sprite_address(x).done(frame)
        } else if a == 0xf && y == 0x3 && b == 0x3 {
            if self.i + 2 >= MEMORY_SIZE {
                self.failed(
                    frame,
                    Chip8Error::MemoryBoundsError {
                        access: MemoryAccess::BcdStore,
                        address: self.i,
                        count: 3,
                    },
                )
            } else {
                self.store_bcd_representation(x).done(frame)
            }
        } else if a == 0xf && y == 0x5 && b == 0x5 {
            if self.i + x >= MEMORY_SIZE {
                self.failed(
                    frame,
                    Chip8Error::MemoryBoundsError {
                        access: MemoryAccess::RegisterStore,
                        address: self.i,
                        count: (x + 1) as usize,
                    },
                )
            } else {
                self.store_registers(x).done(frame)
            }
        } else if a == 0xf && y == 0x6 && b == 0x5 {
            if self.i + x >= MEMORY_SIZE {
                self.failed(
                    frame,
                    Chip8Error::MemoryBoundsError {
                        access: MemoryAccess::RegisterLoad,
                        address: self.i,
                        count: (x + 1) as usize,
                    },
                )
            } else {
                self.read_registers(x).done(frame)
            }
        } else {
            self.failed(
                frame,
                Chip8Error::InvalidInstruction { opcode: self.opcode(), pc: self.pc as usize },
            )
        }
    }

    /// One tick. Where no instruction can be read at `pc`, the tick fails
    /// and nothing changes. Otherwise the timers go down first, where
    /// `decrement` asks for it, and then the instruction at `pc` runs.
    pub open spec fn step(self, keys: Seq<bool>, frame: Frame, decrement: bool, random: u8) -> Outcome {
        if !self.can_fetch() {
            self.failed(frame, Chip8Error::PcOutOfBounds { pc: self.pc as usize })
        } else if decrement {
            self.decrement_timers().execute(keys, frame, random)
        } else {
            self.execute(keys, frame, random)
        }
    }

    /// Only the instruction that draws a random byte depends on which byte
    /// is drawn.
    pub proof fn lemma_execute_ignores_random(
        self,
        keys: Seq<bool>,
        frame: Frame,
        random: u8,
        other: u8,
    )
        requires
            self.high() / 16 != 0xc,
        ensures
            self.execute(keys, frame, random) == self.execute(keys, frame, other),
    {
    }

    /// Whether the instruction at `pc` is the one that draws a random byte.
    pub open spec fn draws_random(self) -> bool {
        self.can_fetch() && self.high() / 16 == 0xc
    }
}

} // verus!
