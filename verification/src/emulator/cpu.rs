//! The processor: one verified function for each instruction, and `tick`,
//! which fetches, decodes and runs the instruction at the program counter.

use crate::emulator::input::Keyboard;
use crate::emulator::machine::initial_memory;
use crate::emulator::machine::Machine;
use crate::emulator::machine::Outcome;
use crate::emulator::machine::FLAG;
use crate::emulator::machine::FONT_SIZE;
use crate::emulator::machine::LOAD_ADDRESS;
use crate::emulator::machine::MAX_PROGRAM_SIZE;
use crate::emulator::machine::MAX_STACK_DEPTH;
use crate::emulator::machine::MEMORY_SIZE;
use crate::emulator::machine::REGISTER_COUNT;
use crate::emulator::machine::SPRITES;
use crate::emulator::machine::SPRITE_SIZE;
use crate::emulator::ui::bit_from_left;
use crate::emulator::ui::blank;
use crate::emulator::ui::blit;
use crate::emulator::ui::collides;
use crate::emulator::ui::erases;
use crate::emulator::ui::is_grid;
use crate::emulator::ui::lemma_bit_from_left;
use crate::emulator::ui::lemma_blit_next_line;
use crate::emulator::ui::lemma_blit_nothing;
use crate::emulator::ui::sprite_covers;
use crate::emulator::ui::DisplayBuffer;
use crate::emulator::ui::Frame;
use crate::emulator::ui::HEIGHT;
use crate::emulator::ui::WIDTH;
use crate::emulator::Chip8Error;
use crate::emulator::Chip8Result;
use crate::emulator::LoadFault;
use crate::emulator::MemoryAccess;
use rand::Rng;
use vstd::prelude::*;

verus! {

/// The processor: program counter, memory, registers, timers and call stack.
pub struct CPU {
    pc: usize,
    memory: [u8; MEMORY_SIZE],
    registers: [u8; REGISTER_COUNT],
    i_register: u16,
    delay_register: u8,
    sound_register: u8,
    stack_pointer: usize,
    stack: [u16; MAX_STACK_DEPTH],
}

impl View for CPU {
    type V = Machine;

    /// The state of the processor. Of the stack only the return addresses of
    /// the calls in progress count.
    closed spec fn view(&self) -> Machine {
        Machine {
            pc: self.pc as int,
            memory: self.memory@,
            registers: self.registers@,
            i: self.i_register,
            delay: self.delay_register,
            sound: self.sound_register,
            stack: self.stack@.take(self.stack_pointer as int),
        }
    }
}

/// Draws a byte from the generator that `rand::thread_rng` hands out, with
/// `Rng::gen_range` over `0..=255`. The range is not empty, which is all
/// that `gen_range` asks for. Every byte can come back, and two calls need
/// not agree, so nothing is claimed of the result.
#[verifier::external_body]
fn random_byte() -> (byte: u8) {
    rand::thread_rng().gen_range(0..=255)
}

/// Whether one of the first `width` bits of a sprite row drawn from column
/// `x` on is set on the pixel in column `col`.
spec fn row_covers(byte: u8, x: int, col: int, width: int) -> bool {
    let bit = (col - x) % (WIDTH as int);
    bit < width && bit_from_left(byte, bit)
}

/// Whether one of the first `width` bits of a sprite row turns off the
/// pixel in column `col` of `row`.
spec fn row_erases(row: Seq<bool>, byte: u8, x: int, col: int, width: int) -> bool {
    0 <= col < WIDTH && row[col] && row_covers(byte, x, col, width)
}

impl CPU {
    /// The stack pointer stays within the stack.
    pub closed spec fn wf(&self) -> bool {
        self.stack_pointer <= MAX_STACK_DEPTH
    }

    /// The state of a well-formed processor has the sizes of a machine state.
    pub proof fn lemma_view_wf(&self)
        requires
            self.wf(),
        ensures
            self@.wf(),
            self@.pc <= usize::MAX,
    {
    }

    /// Loads a program image: the font goes to address 0, the image to
    /// `LOAD_ADDRESS`, and execution starts there. An empty image is
    /// rejected, and so is one longer than `MAX_PROGRAM_SIZE`.
    pub fn load(program: &[u8]) -> (loaded: Chip8Result<CPU>)
        ensures
            program@.len() == 0 ==> (loaded matches Err(e) && e == Chip8Error::LoadError(
                LoadFault::Empty,
            )),
            program@.len() > MAX_PROGRAM_SIZE ==> (loaded matches Err(e) && e
                == Chip8Error::LoadError(LoadFault::TooLarge { len: program@.len() as usize })),
            0 < program@.len() <= MAX_PROGRAM_SIZE ==> (loaded matches Ok(cpu) && cpu.wf() && cpu@
                == Machine::boot(initial_memory(program@))),
    {
        let len = program.len();
        if len == 0 {
            return Err(Chip8Error::LoadError(LoadFault::Empty));
        }
        if len > MAX_PROGRAM_SIZE {
            return Err(Chip8Error::LoadError(LoadFault::TooLarge { len }));
        }
        let mut memory = [0u8; MEMORY_SIZE];
        let mut k: usize = 0;
        while k < FONT_SIZE
            invariant
                k <= FONT_SIZE,
                forall|a: int| 0 <= a < k ==> memory[a] == SPRITES[a],
                forall|a: int| k <= a < MEMORY_SIZE ==> memory[a] == 0,
            decreases FONT_SIZE - k,
        {
            memory[k] = SPRITES[k];
            k += 1;
        }
        let mut k: usize = 0;
        while k < len
            invariant
                k <= len,
                len == program@.len(),
                len <= MAX_PROGRAM_SIZE,
                forall|a: int| 0 <= a < FONT_SIZE ==> memory[a] == SPRITES[a],
                forall|a: int| FONT_SIZE <= a < LOAD_ADDRESS ==> memory[a] == 0,
                forall|a: int|
                    LOAD_ADDRESS <= a < LOAD_ADDRESS + k ==> memory[a] == program@[a
                        - LOAD_ADDRESS],
                forall|a: int| LOAD_ADDRESS + k <= a < MEMORY_SIZE ==> memory[a] == 0,
            decreases len - k,
        {
            memory[LOAD_ADDRESS + k] = program[k];
            k += 1;
        }
        assert(memory@ =~= initial_memory(program@));
        Ok(CPU::new(memory))
    }

    /// The processor as it starts on the given memory.
    pub fn new(memory: [u8; MEMORY_SIZE]) -> (cpu: CPU)
        ensures
            cpu.wf(),
            cpu@ == Machine::boot(memory@),
    {
        let cpu = CPU {
            pc: LOAD_ADDRESS,
            memory,
            registers: [0;REGISTER_COUNT],
            i_register: 0,
            delay_register: 0,
            sound_register: 0,
            stack_pointer: 0,
            stack: [0;MAX_STACK_DEPTH],
        };
        assert(cpu@ =~= Machine::boot(memory@));
        cpu
    }

    /// Address of the next instruction.
    pub fn pc(&self) -> (pc: usize)
        ensures
            pc == self@.pc,
    {
        self.pc
    }

    /// The whole of memory.
    pub fn memory(&self) -> (memory: &[u8; MEMORY_SIZE])
        ensures
            memory@ == self@.memory,
    {
        &self.memory
    }

    /// The registers `V0` to `VF`.
    pub fn registers(&self) -> (registers: &[u8; REGISTER_COUNT])
        ensures
            registers@ == self@.registers,
    {
        &self.registers
    }

    /// The address register `I`.
    pub fn i_register(&self) -> (i: u16)
        ensures
            i == self@.i,
    {
        self.i_register
    }

    /// The delay timer.
    pub fn delay_timer(&self) -> (delay: u8)
        ensures
            delay == self@.delay,
    {
        self.delay_register
    }

    /// The sound timer.
    pub fn sound_timer(&self) -> (sound: u8)
        ensures
            sound == self@.sound,
    {
        self.sound_register
    }

    /// How many calls are in progress.
    pub fn stack_depth(&self) -> (depth: usize)
        requires
            self.wf(),
        ensures
            depth == self@.stack.len(),
    {
        self.stack_pointer
    }

    /// The return address of the latest call in progress, if there is one.
    pub fn return_address(&self) -> (top: Option<u16>)
        requires
            self.wf(),
        ensures
            top == if self@.stack.len() == 0 {
                None
            } else {
                Some(self@.stack.last())
            },
    {
        if self.stack_pointer == 0 {
            None
        } else {
            Some(self.stack[self.stack_pointer - 1])
        }
    }

    /// Continues at `addr`.
    pub fn jump(&mut self, addr: usize) -> (res: Chip8Result<()>)
        requires
            old(self).wf(),
        ensures
            res == Ok::<(), Chip8Error>(()),
            final(self).wf(),
            final(self)@ == old(self)@.jump(addr as int),
    {
        self.pc = addr;
        Ok(())
    }

    /// Calls the routine at `addr`: the address of the next instruction goes
    /// on the stack. With `MAX_STACK_DEPTH` calls in progress the call fails
    /// and changes nothing.
    pub fn call(&mut self, addr: usize) -> (res: Chip8Result<()>)
        requires
            old(self).wf(),
            old(self)@.pc + 2 <= u16::MAX,
        ensures
            final(self).wf(),
            old(self)@.stack.len() < MAX_STACK_DEPTH ==> res == Ok::<(), Chip8Error>(())
                && final(self)@ == old(self)@.call(addr as int),
            old(self)@.stack.len() >= MAX_STACK_DEPTH ==> res == Err::<(), Chip8Error>(
                Chip8Error::StackOverflow,
            ) && *final(self) == *old(self),
    {
        if self.stack_pointer >= MAX_STACK_DEPTH {
            return Err(Chip8Error::StackOverflow);
        }
        self.stack[self.stack_pointer] = self.pc as u16 + 2;
        self.stack_pointer += 1;
        self.pc = addr;
        assert(self@ =~= old(self)@.call(addr as int));
        Ok(())
    }

    /// Returns from the latest call. With no call in progress the return
    /// fails and changes nothing.
    pub fn ret(&mut self) -> (res: Chip8Result<()>)
        requires
            old(self).wf(),
        ensures
            final(self).wf(),
            old(self)@.stack.len() > 0 ==> res == Ok::<(), Chip8Error>(()) && final(self)@
                == old(self)@.ret(),
            old(self)@.stack.len() == 0 ==> res == Err::<(), Chip8Error>(
                Chip8Error::StackUnderflow,
            ) && *final(self) == *old(self),
    {
        if self.stack_pointer == 0 {
            return Err(Chip8Error::StackUnderflow);
        }
        self.stack_pointer -= 1;
        self.pc = self.stack[self.stack_pointer] as usize;
        assert(self@ =~= old(self)@.ret());
        Ok(())
    }

    /// Moves the program counter to the next instruction.
    pub fn increment_pc(&mut self)
        requires
            old(self).wf(),
            old(self)@.pc + 2 <= usize::MAX,
        ensures
            final(self).wf(),
            final(self)@ == old(self)@.advance(),
    {
        self.pc += 2;
    }

    /// Skips the next instruction where `Vx` equals `byte`.
    pub fn skip_reg_imm_eq(&mut self, register: u8, byte: u8) -> (res: Chip8Result<()>)
        requires
            old(self).wf(),
            register < REGISTER_COUNT,
            old(self)@.pc + 4 <= usize::MAX,
        ensures
            res == Ok::<(), Chip8Error>(()),
            final(self).wf(),
            final(self)@ == old(self)@.skip_reg_imm_eq(register as int, byte),
    {
        if self.registers[register as usize] == byte {
            self.increment_pc();
        }
        self.increment_pc();
        Ok(())
    }

    /// Skips the next instruction where `Vx` differs from `byte`.
    pub fn skip_reg_imm_neq(&mut self, register: u8, byte: u8) -> (res: Chip8Result<()>)
        requires
            old(self).wf(),
            register < REGISTER_COUNT,
            old(self)@.pc + 4 <= usize::MAX,
        ensures
            res == Ok::<(), Chip8Error>(()),
            final(self).wf(),
            final(self)@ == old(self)@.skip_reg_imm_neq(register as int, byte),
    {
        if self.registers[register as usize] != byte {
            self.increment_pc();
        }
        self.increment_pc();
        Ok(())
    }

    /// Skips the next instruction where `Vx` equals `Vy`.
    pub fn skip_reg_reg_eq(&mut self, register1: u8, register2: u8) -> (res: Chip8Result<()>)
        requires
            old(self).wf(),
            register1 < REGISTER_COUNT,
            register2 < REGISTER_COUNT,
            old(self)@.pc + 4 <= usize::MAX,
        ensures
            res == Ok::<(), Chip8Error>(()),
            final(self).wf(),
            final(self)@ == old(self)@.skip_reg_reg_eq(register1 as int, register2 as int),
    {
        if self.registers[register1 as usize] == self.registers[register2 as usize] {
            self.increment_pc();
        }
        self.increment_pc();
        Ok(())
    }

    /// Skips the next instruction where `Vx` differs from `Vy`.
    pub fn skip_reg_reg_neq(&mut self, register1: u8, register2: u8) -> (res: Chip8Result<()>)
        requires
            old(self).wf(),
            register1 < REGISTER_COUNT,
            register2 < REGISTER_COUNT,
            old(self)@.pc + 4 <= usize::MAX,
        ensures
            res == Ok::<(), Chip8Error>(()),
            final(self).wf(),
            final(self)@ == old(self)@.skip_reg_reg_neq(register1 as int, register2 as int),
    {
        if self.registers[register1 as usize] != self.registers[register2 as usize] {
            self.increment_pc();
        }
        self.increment_pc();
        Ok(())
    }

    /// `Vx = byte`.
    pub fn load_imm(&mut self, register: u8, byte: u8) -> (res: Chip8Result<()>)
        requires
            old(self).wf(),
            register < REGISTER_COUNT,
            old(self)@.pc + 2 <= usize::MAX,
        ensures
            res == Ok::<(), Chip8Error>(()),
            final(self).wf(),
            final(self)@ == old(self)@.load_imm(register as int, byte),
    {
        self.registers[register as usize] = byte;
        self.increment_pc();
        assert(self@ =~= old(self)@.load_imm(register as int, byte));
        Ok(())
    }

    /// `Vx = Vx + byte`, modulo 256. The flag register is not touched.
    pub fn add_imm(&mut self, register: u8, byte: u8) -> (res: Chip8Result<()>)
        requires
            old(self).wf(),
            register < REGISTER_COUNT,
            old(self)@.pc + 2 <= usize::MAX,
        ensures
            res == Ok::<(), Chip8Error>(()),
            final(self).wf(),
            final(self)@ == old(self)@.add_imm(register as int, byte),
    {
        let result = byte.wrapping_add(self.registers[register as usize]);
        self.registers[register as usize] = result;
        self.increment_pc();
        assert(self@ =~= old(self)@.add_imm(register as int, byte));
        Ok(())
    }

    /// `Vx = Vy`.
    pub fn load_reg(&mut self, register1: u8, register2: u8) -> (res: Chip8Result<()>)
        requires
            old(self).wf(),
            register1 < REGISTER_COUNT,
            register2 < REGISTER_COUNT,
            old(self)@.pc + 2 <= usize::MAX,
        ensures
            res == Ok::<(), Chip8Error>(()),
            final(self).wf(),
            final(self)@ == old(self)@.load_reg(register1 as int, register2 as int),
    {
        self.registers[register1 as usize] = self.registers[register2 as usize];
        self.increment_pc();
        assert(self@ =~= old(self)@.load_reg(register1 as int, register2 as int));
        Ok(())
    }

    /// `Vx = Vx | Vy`.
    pub fn or_reg(&mut self, register1: u8, register2: u8) -> (res: Chip8Result<()>)
        requires
            old(self).wf(),
            register1 < REGISTER_COUNT,
            register2 < REGISTER_COUNT,
            old(self)@.pc + 2 <= usize::MAX,
        ensures
            res == Ok::<(), Chip8Error>(()),
            final(self).wf(),
            final(self)@ == old(self)@.or_reg(register1 as int, register2 as int),
    {
        self.registers[register1 as usize] |= self.registers[register2 as usize];
        self.increment_pc();
        assert(self@ =~= old(self)@.or_reg(register1 as int, register2 as int));
        Ok(())
    }

    /// `Vx = Vx & Vy`.
    pub fn and_reg(&mut self, register1: u8, register2: u8) -> (res: Chip8Result<()>)
        requires
            old(self).wf(),
            register1 < REGISTER_COUNT,
            register2 < REGISTER_COUNT,
            old(self)@.pc + 2 <= usize::MAX,
        ensures
            res == Ok::<(), Chip8Error>(()),
            final(self).wf(),
            final(self)@ == old(self)@.and_reg(register1 as int, register2 as int),
    {
        self.registers[register1 as usize] &= self.registers[register2 as usize];
        self.increment_pc();
        assert(self@ =~= old(self)@.and_reg(register1 as int, register2 as int));
        Ok(())
    }

    /// `Vx = Vx ^ Vy`.
    pub fn xor_reg(&mut self, register1: u8, register2: u8) -> (res: Chip8Result<()>)
        requires
            old(self).wf(),
            register1 < REGISTER_COUNT,
            register2 < REGISTER_COUNT,
            old(self)@.pc + 2 <= usize::MAX,
        ensures
            res == Ok::<(), Chip8Error>(()),
            final(self).wf(),
            final(self)@ == old(self)@.xor_reg(register1 as int, register2 as int),
    {
        self.registers[register1 as usize] ^= self.registers[register2 as usize];
        self.increment_pc();
        assert(self@ =~= old(self)@.xor_reg(register1 as int, register2 as int));
        Ok(())
    }

    /// `Vx = Vx + Vy`, modulo 256, and the flag register holds the carry: 1
    /// where the sum is above 255, 0 where it is not.
    pub fn add_reg(&mut self, register1: u8, register2: u8) -> (res: Chip8Result<()>)
        requires
            old(self).wf(),
            register1 < REGISTER_COUNT,
            register2 < REGISTER_COUNT,
            old(self)@.pc + 2 <= usize::MAX,
        ensures
            res == Ok::<(), Chip8Error>(()),
            final(self).wf(),
            final(self)@ == old(self)@.add_reg(register1 as int, register2 as int),
            final(self)@.registers[FLAG as int] == (old(self)@.registers[register1 as int] + old(
                self,
            )@.registers[register2 as int]) / 256,
            register1 != FLAG ==> final(self)@.registers[register1 as int] == (old(
                self,
            )@.registers[register1 as int] + old(self)@.registers[register2 as int]) % 256,
    {
        let a = self.registers[register1 as usize];
        let b = self.registers[register2 as usize];
        let result = a.wrapping_add(b);
        let overflow = a > u8::MAX - b;
        self.registers[register1 as usize] = result;
        self.registers[FLAG] = if overflow { 1 } else { 0 };
        self.increment_pc();
        assert(self@ =~= old(self)@.add_reg(register1 as int, register2 as int));
        Ok(())
    }

    /// `V[dest] = V[register1] - V[register2]`, modulo 256, and the flag
    /// register holds 1 where `V[register1] >= V[register2]`, so that
    /// nothing was borrowed, and 0 where something was.
    pub fn sub_reg_with_dest(&mut self, register1: u8, register2: u8, dest: u8) -> (res:
        Chip8Result<()>)
        requires
            old(self).wf(),
            register1 < REGISTER_COUNT,
            register2 < REGISTER_COUNT,
            dest < REGISTER_COUNT,
            old(self)@.pc + 2 <= usize::MAX,
        ensures
            res == Ok::<(), Chip8Error>(()),
            final(self).wf(),
            final(self)@ == old(self)@.sub_reg_with_dest(
                register1 as int,
                register2 as int,
                dest as int,
            ),
            final(self)@.registers[FLAG as int] == 1 <==> old(self)@.registers[register1 as int]
                >= old(self)@.registers[register2 as int],
            final(self)@.registers[FLAG as int] == 0 <==> old(self)@.registers[register1 as int]
                < old(self)@.registers[register2 as int],
    {
        let a = self.registers[register1 as usize];
        let b = self.registers[register2 as usize];
        let result = a.wrapping_sub(b);
        let borrow = a < b;
        self.registers[dest as usize] = result;
        self.registers[FLAG] = if borrow { 0 } else { 1 };
        self.increment_pc();
        assert(self@ =~= old(self)@.sub_reg_with_dest(
            register1 as int,
            register2 as int,
            dest as int,
        ));
        Ok(())
    }

    /// `Vx = Vx - Vy`; the flag register holds 1 where `Vx >= Vy`, else 0.
    pub fn sub_reg(&mut self, register1: u8, register2: u8) -> (res: Chip8Result<()>)
        requires
            old(self).wf(),
            register1 < REGISTER_COUNT,
            register2 < REGISTER_COUNT,
            old(self)@.pc + 2 <= usize::MAX,
        ensures
            res == Ok::<(), Chip8Error>(()),
            final(self).wf(),
            final(self)@ == old(self)@.sub_reg(register1 as int, register2 as int),
            final(self)@.registers[FLAG as int] == 1 <==> old(self)@.registers[register1 as int]
                >= old(self)@.registers[register2 as int],
            final(self)@.registers[FLAG as int] == 0 <==> old(self)@.registers[register1 as int]
                < old(self)@.registers[register2 as int],
    {
        self.sub_reg_with_dest(register1, register2, register1)
    }

    /// `Vx = Vy - Vx`; the flag register holds 1 where `Vy >= Vx`, else 0.
    pub fn subn_reg(&mut self, register1: u8, register2: u8) -> (res: Chip8Result<()>)
        requires
            old(self).wf(),
            register1 < REGISTER_COUNT,
            register2 < REGISTER_COUNT,
            old(self)@.pc + 2 <= usize::MAX,
        ensures
            res == Ok::<(), Chip8Error>(()),
            final(self).wf(),
            final(self)@ == old(self)@.subn_reg(register1 as int, register2 as int),
            final(self)@.registers[FLAG as int] == 1 <==> old(self)@.registers[register2 as int]
                >= old(self)@.registers[register1 as int],
            final(self)@.registers[FLAG as int] == 0 <==> old(self)@.registers[register2 as int]
                < old(self)@.registers[register1 as int],
    {
        self.sub_reg_with_dest(register2, register1, register1)
    }

    /// The flag register takes the lowest bit of `Vx`, then `Vx` is shifted
    /// right by one. Where `Vx` is the flag register itself, it is the bit
    /// that is shifted, and 0 is left.
    pub fn shr_reg(&mut self, register: u8) -> (res: Chip8Result<()>)
        requires
            old(self).wf(),
            register < REGISTER_COUNT,
            old(self)@.pc + 2 <= usize::MAX,
        ensures
            res == Ok::<(), Chip8Error>(()),
            final(self).wf(),
            final(self)@ == old(self)@.shr_reg(register as int),
            register != FLAG ==> final(self)@.registers[FLAG as int] == old(
                self,
            )@.registers[register as int] % 2 && final(self)@.registers[register as int] == old(
                self,
            )@.registers[register as int] / 2,
    {
        let value = self.registers[register as usize];
        self.registers[FLAG] = value & 0x1;
        assert(value & 0x1 == value % 2) by (bit_vector);
        let shifted = self.registers[register as usize];
        self.registers[register as usize] >>= 1;
        assert(shifted >> 1 == shifted / 2) by (bit_vector);
        self.increment_pc();
        assert(self@ =~= old(self)@.shr_reg(register as int));
        Ok(())
    }

    /// The flag register takes the highest bit of `Vx`, then `Vx` is shifted
    /// left by one. Where `Vx` is the flag register itself, it is the bit
    /// that is shifted.
    pub fn shl_reg(&mut self, register: u8) -> (res: Chip8Result<()>)
        requires
            old(self).wf(),
            register < REGISTER_COUNT,
            old(self)@.pc + 2 <= usize::MAX,
        ensures
            res == Ok::<(), Chip8Error>(()),
            final(self).wf(),
            final(self)@ == old(self)@.shl_reg(register as int),
            register != FLAG ==> final(self)@.registers[FLAG as int] == old(
                self,
            )@.registers[register as int] / 128 && final(self)@.registers[register as int] == (old(
                self,
            )@.registers[register as int] * 2) % 256,
    {
        let value = self.registers[register as usize];
        self.registers[FLAG] = value >> 7;
        assert(value >> 7 == value / 128) by (bit_vector);
        let shifted = self.registers[register as usize];
        self.registers[register as usize] <<= 1;
        assert(shifted << 1 == (shifted * 2) % 256) by (bit_vector);
        self.increment_pc();
        assert(self@ =~= old(self)@.shl_reg(register as int));
        Ok(())
    }

    /// `I = addr`.
    pub fn set_i(&mut self, addr: u16) -> (res: Chip8Result<()>)
        requires
            old(self).wf(),
            old(self)@.pc + 2 <= usize::MAX,
        ensures
            res == Ok::<(), Chip8Error>(()),
            final(self).wf(),
            final(self)@ == old(self)@.set_i(addr),
    {
        self.i_register = addr;
        self.increment_pc();
        Ok(())
    }

    /// Continues at `V0 + addr`.
    pub fn jump_v0(&mut self, addr: usize) -> (res: Chip8Result<()>)
        requires
            old(self).wf(),
            addr + u8::MAX <= usize::MAX,
        ensures
            res == Ok::<(), Chip8Error>(()),
            final(self).wf(),
            final(self)@ == old(self)@.jump_v0(addr as int),
    {
        self.jump(self.registers[0] as usize + addr)
    }

    /// `Vx = random & byte`, for a byte `random` drawn anew at each call.
    pub fn load_and_rnd_imm(&mut self, register: u8, byte: u8) -> (res: Chip8Result<()>)
        requires
            old(self).wf(),
            register < REGISTER_COUNT,
            old(self)@.pc + 2 <= usize::MAX,
        ensures
            res == Ok::<(), Chip8Error>(()),
            final(self).wf(),
            exists|random: u8| final(self)@ == #[trigger] old(self)@.load_and_imm(
                register as int,
                random,
                byte,
            ),
    {
        let random = random_byte();
        self.load_and_imm(register, random, byte)
    }

    /// `Vx = random & byte`.
    pub fn load_and_imm(&mut self, register: u8, random: u8, byte: u8) -> (res: Chip8Result<()>)
        requires
            old(self).wf(),
            register < REGISTER_COUNT,
            old(self)@.pc + 2 <= usize::MAX,
        ensures
            res == Ok::<(), Chip8Error>(()),
            final(self).wf(),
            final(self)@ == old(self)@.load_and_imm(register as int, random, byte),
    {
        self.registers[register as usize] = random & byte;
        self.increment_pc();
        assert(self@ =~= old(self)@.load_and_imm(register as int, random, byte));
        Ok(())
    }

    /// Skips the next instruction where the key with digit `Vx` is down.
    pub fn skip_keydown(&mut self, register: u8, keyboard: &Keyboard) -> (res: Chip8Result<()>)
        requires
            old(self).wf(),
            register < REGISTER_COUNT,
            old(self)@.pc + 4 <= usize::MAX,
        ensures
            res == Ok::<(), Chip8Error>(()),
            final(self).wf(),
            final(self)@ == old(self)@.skip_keydown(register as int, keyboard@),
    {
        if keyboard.is_key_pressed(self.registers[register as usize]) {
            self.increment_pc();
        }
        self.increment_pc();
        Ok(())
    }

    /// Skips the next instruction where the key with digit `Vx` is up.
    pub fn skip_not_keydown(&mut self, register: u8, keyboard: &Keyboard) -> (res: Chip8Result<
        (),
    >)
        requires
            old(self).wf(),
            register < REGISTER_COUNT,
            old(self)@.pc + 4 <= usize::MAX,
        ensures
            res == Ok::<(), Chip8Error>(()),
            final(self).wf(),
            final(self)@ == old(self)@.skip_not_keydown(register as int, keyboard@),
    {
        if !keyboard.is_key_pressed(self.registers[register as usize]) {
            self.increment_pc();
        }
        self.increment_pc();
        Ok(())
    }

    /// `Vx = delay timer`.
    pub fn load_delay_timer(&mut self, register: u8) -> (res: Chip8Result<()>)
        requires
            old(self).wf(),
            register < REGISTER_COUNT,
            old(self)@.pc + 2 <= usize::MAX,
        ensures
            res == Ok::<(), Chip8Error>(()),
            final(self).wf(),
            final(self)@ == old(self)@.load_delay_timer(register as int),
    {
        self.registers[register as usize] = self.delay_register;
        self.increment_pc();
        assert(self@ =~= old(self)@.load_delay_timer(register as int));
        Ok(())
    }

    /// `delay timer = Vx`.
    pub fn set_delay_timer(&mut self, register: u8) -> (res: Chip8Result<()>)
        requires
            old(self).wf(),
            register < REGISTER_COUNT,
            old(self)@.pc + 2 <= usize::MAX,
        ensures
            res == Ok::<(), Chip8Error>(()),
            final(self).wf(),
            final(self)@ == old(self)@.set_delay_timer(register as int),
    {
        self.delay_register = self.registers[register as usize];
        self.increment_pc();
        Ok(())
    }

    /// `sound timer = Vx`.
    pub fn set_sound_timer(&mut self, register: u8) -> (res: Chip8Result<()>)
        requires
            old(self).wf(),
            register < REGISTER_COUNT,
            old(self)@.pc + 2 <= usize::MAX,
        ensures
            res == Ok::<(), Chip8Error>(()),
            final(self).wf(),
            final(self)@ == old(self)@.set_sound_timer(register as int),
    {
        self.sound_register = self.registers[register as usize];
        self.increment_pc();
        Ok(())
    }

    /// Where a key is down, `Vx` takes the digit of the lowest such key and
    /// execution goes on. Where none is, nothing changes: the program
    /// counter stays, and the instruction runs again at the next tick.
    pub fn wait_keypress(&mut self, register: u8, keyboard: &Keyboard) -> (res: Chip8Result<()>)
        requires
            old(self).wf(),
            register < REGISTER_COUNT,
            old(self)@.pc + 2 <= usize::MAX,
        ensures
            res == Ok::<(), Chip8Error>(()),
            final(self).wf(),
            final(self)@ == old(self)@.wait_keypress(register as int, keyboard@),
    {
        if let Some(code) = keyboard.any_pressed_key() {
            self.registers[register as usize] = code;
            self.increment_pc();
            assert(self@ =~= old(self)@.wait_keypress(register as int, keyboard@));
        }
        Ok(())
    }

    /// `I = I + Vx`, modulo 65536. The flag register is not touched.
    pub fn add_i_reg(&mut self, register: u8) -> (res: Chip8Result<()>)
        requires
            old(self).wf(),
            register < REGISTER_COUNT,
            old(self)@.pc + 2 <= usize::MAX,
        ensures
            res == Ok::<(), Chip8Error>(()),
            final(self).wf(),
            final(self)@ == old(self)@.add_i_reg(register as int),
    {
        self.i_register = self.i_register.wrapping_add(self.registers[register as usize] as u16);
        self.increment_pc();
        Ok(())
    }

    /// `I` takes the address of the glyph of the digit in `Vx`, which is
    /// `SPRITE_SIZE` times the digit.
    pub fn load_sprite_address(&mut self, register: u8) -> (res: Chip8Result<()>)
        requires
            old(self).wf(),
            register < REGISTER_COUNT,
            old(self)@.pc + 2 <= usize::MAX,
        ensures
            res == Ok::<(), Chip8Error>(()),
            final(self).wf(),
            final(self)@ == old(self)@.load_sprite_address(register as int),
            final(self)@.i == 5 * old(self)@.registers[register as int],
    {
        let digit = self.registers[register as usize] as u16;
        self.i_register = digit * SPRITE_SIZE;
        self.increment_pc();
        Ok(())
    }

    /// Stores the decimal digits of `Vx` at `I` (hundreds), `I + 1` (tens)
    /// and `I + 2` (ones). Where `I + 2` lies past the end of memory the
    /// instruction fails and changes nothing.
    pub fn store_bcd_representation(&mut self, register: u8) -> (res: Chip8Result<()>)
        requires
            old(self).wf(),
            register < REGISTER_COUNT,
            old(self)@.pc + 2 <= usize::MAX,
        ensures
            final(self).wf(),
            old(self)@.i + 2 < MEMORY_SIZE ==> res == Ok::<(), Chip8Error>(()) && final(self)@ == old(
                self,
            )@.store_bcd_representation(register as int),
            old(self)@.i + 2 < MEMORY_SIZE ==> {
                let value = old(self)@.registers[register as int];
                let at = old(self)@.i as int;
                &&& final(self)@.memory[at] == value / 100
                &&& final(self)@.memory[at + 1] == (value / 10) % 10
                &&& final(self)@.memory[at + 2] == value % 10
            },
            old(self)@.i + 2 >= MEMORY_SIZE ==> res == Err::<(), Chip8Error>(
                Chip8Error::MemoryBoundsError {
                    access: MemoryAccess::BcdStore,
                    address: old(self)@.i,
                    count: 3,
                },
            ) && *final(self) == *old(self),
    {
        let i = self.i_register as usize;
        if i >= MEMORY_SIZE - 2 {
            return Err(
                Chip8Error::MemoryBoundsError {
                    access: MemoryAccess::BcdStore,
                    address: self.i_register,
                    count: 3,
                },
            );
        }
        let mut value = self.registers[register as usize];
        self.memory[i + 2] = value % 10;
        value /= 10;
        self.memory[i + 1] = value % 10;
        value /= 10;
        self.memory[i] = value % 10;
        self.increment_pc();
        assert(self@ =~= old(self)@.store_bcd_representation(register as int));
        Ok(())
    }

    /// Copies `V0` to `V[last_register]`, inclusive, to memory from `I` on.
    /// Where the last byte would lie past the end of memory the instruction
    /// fails and changes nothing.
    pub fn store_registers(&mut self, last_register: u8) -> (res: Chip8Result<()>)
        requires
            old(self).wf(),
            last_register < REGISTER_COUNT,
            old(self)@.pc + 2 <= usize::MAX,
        ensures
            final(self).wf(),
            old(self)@.i + last_register < MEMORY_SIZE ==> res == Ok::<(), Chip8Error>(())
                && final(self)@ == old(self)@.store_registers(last_register as int),
            old(self)@.i + last_register >= MEMORY_SIZE ==> res == Err::<(), Chip8Error>(
                Chip8Error::MemoryBoundsError {
                    access: MemoryAccess::RegisterStore,
                    address: old(self)@.i,
                    count: (last_register + 1) as usize,
                },
            ) && *final(self) == *old(self),
    {
        let i = self.i_register as usize;
        let last_register = last_register as usize;
        if i + last_register >= MEMORY_SIZE {
            return Err(
                Chip8Error::MemoryBoundsError {
                    access: MemoryAccess::RegisterStore,
                    address: self.i_register,
                    count: last_register + 1,
                },
            );
        }
        let mut r: usize = 0;
        while r <= last_register
            invariant
                r <= last_register + 1,
                last_register < REGISTER_COUNT,
                i + last_register < MEMORY_SIZE,
                i == old(self).i_register,
                self.pc == old(self).pc,
                self.registers == old(self).registers,
                self.i_register == old(self).i_register,
                self.delay_register == old(self).delay_register,
                self.sound_register == old(self).sound_register,
                self.stack_pointer == old(self).stack_pointer,
                self.stack == old(self).stack,
                forall|a: int|
                    0 <= a < MEMORY_SIZE ==> self.memory[a] == if i <= a < i + r {
                        self.registers[a - i]
                    } else {
                        old(self).memory[a]
                    },
            decreases last_register + 1 - r,
        {
            self.memory[i + r] = self.registers[r];
            r += 1;
        }
        self.increment_pc();
        assert(self@ =~= old(self)@.store_registers(last_register as int));
        Ok(())
    }

    /// Copies memory from `I` on into `V0` to `V[last_register]`, inclusive.
    /// Where the last byte would lie past the end of memory the instruction
    /// fails and changes nothing.
    pub fn read_registers(&mut self, last_register: u8) -> (res: Chip8Result<()>)
        requires
            old(self).wf(),
            last_register < REGISTER_COUNT,
            old(self)@.pc + 2 <= usize::MAX,
        ensures
            final(self).wf(),
            old(self)@.i + last_register < MEMORY_SIZE ==> res == Ok::<(), Chip8Error>(())
                && final(self)@ == old(self)@.read_registers(last_register as int),
            old(self)@.i + last_register >= MEMORY_SIZE ==> res == Err::<(), Chip8Error>(
                Chip8Error::MemoryBoundsError {
                    access: MemoryAccess::RegisterLoad,
                    address: old(self)@.i,
                    count: (last_register + 1) as usize,
                },
            ) && *final(self) == *old(self),
    {
        let i = self.i_register as usize;
        let last_register = last_register as usize;
        if i + last_register >= MEMORY_SIZE {
            return Err(
                Chip8Error::MemoryBoundsError {
                    access: MemoryAccess::RegisterLoad,
                    address: self.i_register,
                    count: last_register + 1,
                },
            );
        }
        let mut r: usize = 0;
        while r <= last_register
            invariant
                r <= last_register + 1,
                last_register < REGISTER_COUNT,
                i + last_register < MEMORY_SIZE,
                i == old(self).i_register,
                self.pc == old(self).pc,
                self.memory == old(self).memory,
                self.i_register == old(self).i_register,
                self.delay_register == old(self).delay_register,
                self.sound_register == old(self).sound_register,
                self.stack_pointer == old(self).stack_pointer,
                self.stack == old(self).stack,
                forall|k: int|
                    0 <= k < REGISTER_COUNT ==> self.registers[k] == if k < r {
                        self.memory[i + k]
                    } else {
                        old(self).registers[k]
                    },
            decreases last_register + 1 - r,
        {
            self.registers[r] = self.memory[i + r];
            r += 1;
        }
        self.increment_pc();
        assert(self@ =~= old(self)@.read_registers(last_register as int));
        Ok(())
    }

    /// Does nothing but move to the next instruction.
    pub fn noop(&mut self) -> (res: Chip8Result<()>)
        requires
            old(self).wf(),
            old(self)@.pc + 2 <= usize::MAX,
        ensures
            res == Ok::<(), Chip8Error>(()),
            final(self).wf(),
            final(self)@ == old(self)@.advance(),
    {
        self.increment_pc();
        Ok(())
    }

    /// Draws the eight pixels of one sprite row: bit 7 of `byte` at column
    /// `x`, bit 0 seven columns to the right, in row `y`. Columns and rows
    /// past the edge of the display wrap around. A set bit flips its pixel.
    /// The result tells whether a lit pixel went off.
    pub fn draw_byte(
        &mut self,
        x: usize,
        y: usize,
        byte: u8,
        display_buffer: &mut DisplayBuffer,
    ) -> (collided: bool)
        requires
            x + 7 <= usize::MAX,
        ensures
            *final(self) == *old(self),
            final(display_buffer)@.pixels == blit(
                old(display_buffer)@.pixels,
                seq![byte],
                x as int,
                y as int,
            ),
            final(display_buffer).is_dirty == old(display_buffer).is_dirty,
            collided == collides(old(display_buffer)@.pixels, seq![byte], x as int, y as int),
    {
        let ghost before = old(display_buffer)@.pixels;
        let i = y % HEIGHT;
        let mut collided = false;
        let mut bit: u8 = 0;
        while bit < 8
            invariant
                bit <= 8,
                i == y % HEIGHT,
                x + 7 <= usize::MAX,
                before == old(display_buffer)@.pixels,
                display_buffer.is_dirty == old(display_buffer).is_dirty,
                forall|row: int, col: int|
                    0 <= row < HEIGHT && 0 <= col < WIDTH ==> #[trigger] display_buffer.buffer[row][col]
                        == (before[row][col] != (row == i && row_covers(
                        byte,
                        x as int,
                        col,
                        bit as int,
                    ))),
                collided <==> exists|col: int| row_erases(before[i as int], byte, x as int, col, bit as int),
            decreases 8 - bit,
        {
            let j = (x + bit as usize) % WIDTH;
            let prev = display_buffer.buffer[i][j];
            let lit = (byte >> (7 - bit)) & 1 == 1;
            let next = prev != lit;
            display_buffer.buffer[i][j] = next;
            proof {
                let row = before[i as int];
                let width = bit as int;
                let wider = bit + 1;
                lemma_bit_from_left(byte, bit);
                assert(lit == bit_from_left(byte, width));
                assert((j - x) % (WIDTH as int) == bit);
                assert forall|col: int| 0 <= col < WIDTH implies (row_covers(
                    byte,
                    x as int,
                    col,
                    wider,
                ) <==> row_covers(byte, x as int, col, width) || (col == j && lit)) by {
                    let offset = (col - x) % (WIDTH as int);
                    assert(offset == bit <==> col == j);
                }
                if collided || (prev && !next) {
                    let col = if collided {
                        choose|col: int| row_erases(row, byte, x as int, col, width)
                    } else {
                        j as int
                    };
                    assert(row_erases(row, byte, x as int, col, wider));
                }
                if exists|col: int| row_erases(row, byte, x as int, col, wider) {
                    let col = choose|col: int| row_erases(row, byte, x as int, col, wider);
                    if col != j {
                        assert(row_erases(row, byte, x as int, col, width));
                    }
                }
            }
            if prev && !next {
                collided = true;
            }
            bit += 1;
        }
        proof {
            let sprite = seq![byte];
            let drawn = blit(before, sprite, x as int, y as int);
            assert forall|row: int, col: int| 0 <= row < HEIGHT && 0 <= col < WIDTH implies (row
                == i && row_covers(byte, x as int, col, 8)) == sprite_covers(
                sprite,
                x as int,
                y as int,
                row,
                col,
            ) by {
                let line = (row - y) % (HEIGHT as int);
                assert(line == 0 <==> row == i);
            }
            assert forall|row: int| 0 <= row < HEIGHT implies #[trigger] display_buffer@.pixels[row]
                == drawn[row] by {
                assert forall|col: int| 0 <= col < WIDTH implies display_buffer@.pixels[row][col]
                    == drawn[row][col] by {
                    assert(display_buffer.buffer[row][col] == (before[row][col] != (row == i
                        && row_covers(byte, x as int, col, 8))));
                }
                assert(display_buffer@.pixels[row] =~= drawn[row]);
            }
            assert(display_buffer@.pixels =~= drawn);
            if collided {
                let col = choose|col: int| row_erases(before[i as int], byte, x as int, col, 8);
                assert(erases(before, sprite, x as int, y as int, i as int, col));
            }
            if collides(before, sprite, x as int, y as int) {
                let (row, col) = choose|row: int, col: int|
                    erases(before, sprite, x as int, y as int, row, col);
                assert(row_erases(before[i as int], byte, x as int, col, 8));
            }
        }
        collided
    }

    /// Draws the `bytes` bytes at `I` as a sprite, one row each, with its
    /// top left corner at column `Vx`, row `Vy`: every set bit flips its
    /// pixel, and what runs past an edge of the display comes back in at the
    /// opposite edge. The flag register holds 1 where a lit pixel went off,
    /// else 0, and the display is marked dirty. Where the bytes would reach
    /// past the end of memory the instruction fails and changes nothing.
    /// `bytes` is a 4-bit operand, so a sprite has at most fifteen rows.
    pub fn draw_sprite(
        &mut self,
        register1: u8,
        register2: u8,
        bytes: u8,
        display_buffer: &mut DisplayBuffer,
    ) -> (res: Chip8Result<()>)
        requires
            old(self).wf(),
            register1 < REGISTER_COUNT,
            register2 < REGISTER_COUNT,
            bytes < 16,
            old(self)@.pc + 2 <= usize::MAX,
        ensures
            final(self).wf(),
            old(self)@.i + bytes <= MEMORY_SIZE ==> {
                &&& res == Ok::<(), Chip8Error>(())
                &&& final(self)@ == old(self)@.draw_sprite(
                    old(display_buffer)@.pixels,
                    register1 as int,
                    register2 as int,
                    bytes as int,
                )
                &&& final(display_buffer)@ == old(self)@.drawn(
                    old(display_buffer)@.pixels,
                    register1 as int,
                    register2 as int,
                    bytes as int,
                )
            },
            old(self)@.i + bytes > MEMORY_SIZE ==> {
                &&& res == Err::<(), Chip8Error>(
                    Chip8Error::MemoryBoundsError {
                        access: MemoryAccess::SpriteRead,
                        address: old(self)@.i,
                        count: bytes as usize,
                    },
                )
                &&& *final(self) == *old(self)
                &&& *final(display_buffer) == *old(display_buffer)
            },
    {
        if self.i_register as usize + bytes as usize > MEMORY_SIZE {
            return Err(
                Chip8Error::MemoryBoundsError {
                    access: MemoryAccess::SpriteRead,
                    address: self.i_register,
                    count: bytes as usize,
                },
            );
        }
        let x = self.registers[register1 as usize] as usize;
        let mut y = self.registers[register2 as usize] as usize;
        let i = self.i_register as usize;
        let ghost before = old(display_buffer)@.pixels;
        let ghost sprite = old(self)@.sprite(bytes as int);
        let ghost top = y as int;
        proof {
            old(display_buffer).lemma_is_grid();
            lemma_blit_nothing(before, x as int, top);
            assert(sprite.take(0) =~= Seq::<u8>::empty());
        }
        let mut collided = false;
        let mut k: usize = 0;
        while k < bytes as usize
            invariant
                k <= bytes,
                bytes < 16,
                i + bytes <= MEMORY_SIZE,
                i == old(self).i_register,
                x <= u8::MAX,
                y == top + k,
                top <= u8::MAX,
                *self == *old(self),
                before == old(display_buffer)@.pixels,
                is_grid(before),
                sprite == old(self)@.sprite(bytes as int),
                display_buffer.is_dirty == old(display_buffer).is_dirty,
                display_buffer@.pixels == blit(before, sprite.take(k as int), x as int, top),
                collided == collides(before, sprite.take(k as int), x as int, top),
            decreases bytes - k,
        {
            let byte = self.memory[i + k];
            proof {
                assert(sprite[k as int] == byte);
                lemma_blit_next_line(before, sprite, x as int, top, k as int);
            }
            if self.draw_byte(x, y, byte, display_buffer) {
                collided = true;
            }
            y += 1;
            k += 1;
        }
        assert(sprite.take(bytes as int) =~= sprite);
        self.registers[FLAG] = if collided { 1 } else { 0 };
        display_buffer.is_dirty = true;
        self.increment_pc();
        assert(self@ =~= old(self)@.draw_sprite(
            before,
            register1 as int,
            register2 as int,
            bytes as int,
        ));
        Ok(())
    }

    /// Turns every pixel off and marks the display dirty.
    pub fn clear_screen(&mut self, display_buffer: &mut DisplayBuffer) -> (res: Chip8Result<()>)
        requires
            old(self).wf(),
            old(self)@.pc + 2 <= usize::MAX,
        ensures
            res == Ok::<(), Chip8Error>(()),
            final(self).wf(),
            final(self)@ == old(self)@.advance(),
            final(display_buffer)@ == (Frame { pixels: blank(), is_dirty: true }),
    {
        let mut i: usize = 0;
        while i < HEIGHT
            invariant
                i <= HEIGHT,
                forall|row: int, col: int|
                    0 <= row < i && 0 <= col < WIDTH ==> !(#[trigger] display_buffer.buffer[row][col]),
            decreases HEIGHT - i,
        {
            let mut j: usize = 0;
            while j < WIDTH
                invariant
                    i < HEIGHT,
                    j <= WIDTH,
                    forall|row: int, col: int|
                        0 <= row < i && 0 <= col < WIDTH ==> !(#[trigger] display_buffer.buffer[row][col]),
                    forall|col: int| 0 <= col < j ==> !(#[trigger] display_buffer.buffer[i as int][col]),
                decreases WIDTH - j,
            {
                display_buffer.buffer[i][j] = false;
                j += 1;
            }
            i += 1;
        }
        display_buffer.is_dirty = true;
        self.increment_pc();
        proof {
            assert forall|row: int| 0 <= row < HEIGHT implies #[trigger] display_buffer@.pixels[row]
                == blank()[row] by {
                assert forall|col: int| 0 <= col < WIDTH implies display_buffer@.pixels[row][col]
                    == blank()[row][col] by {
                    assert(!display_buffer.buffer[row][col]);
                }
                assert(display_buffer@.pixels[row] =~= blank()[row]);
            }
            assert(display_buffer@.pixels =~= blank());
        }
        Ok(())
    }

    /// Runs one instruction. Where the two bytes at the program counter do
    /// not both lie in memory, the tick fails and nothing changes. Otherwise
    /// both timers go down by one, unless they are zero, where
    /// `decrement_timers` is set, and then the instruction at the program
    /// counter is decoded and run, as `Machine::step` says. An instruction
    /// that fails leaves everything but the timers as it was.
    pub fn tick(
        &mut self,
        keyboard: &Keyboard,
        display_buffer: &mut DisplayBuffer,
        decrement_timers: bool,
    ) -> (res: Chip8Result<()>)
        requires
            old(self).wf(),
        ensures
            final(self).wf(),
            exists|random: u8| #[trigger]
                old(self)@.step(keyboard@, old(display_buffer)@, decrement_timers, random) == (
                Outcome { result: res, machine: final(self)@, frame: final(display_buffer)@ }),
            !old(self)@.draws_random() ==> forall|random: u8| #[trigger]
                old(self)@.step(keyboard@, old(display_buffer)@, decrement_timers, random) == (
                Outcome { result: res, machine: final(self)@, frame: final(display_buffer)@ }),
            !old(self)@.can_fetch() <==> res == Err::<(), Chip8Error>(
                Chip8Error::PcOutOfBounds { pc: old(self)@.pc as usize },
            ),
            !old(self)@.can_fetch() ==> *final(self) == *old(self) && *final(display_buffer) == *old(
                display_buffer,
            ),
    {
        if self.pc >= MEMORY_SIZE - 1 {
            assert(old(self)@.step(keyboard@, old(display_buffer)@, decrement_timers, 0) == (
                Outcome {
                    result: Err(Chip8Error::PcOutOfBounds { pc: self.pc }),
                    machine: self@,
                    frame: display_buffer@,
                }));
            return Err(Chip8Error::PcOutOfBounds { pc: self.pc });
        }
        if decrement_timers {
            if self.delay_register > 0 {
                self.delay_register -= 1;
            }
            if self.sound_register > 0 {
                self.sound_register -= 1;
            }
        }
        let ghost start = old(self)@;
        let ghost keys = keyboard@;
        let ghost frame = old(display_buffer)@;
        let ghost fetched = self@;
        assert(fetched =~= if decrement_timers {
            start.decrement_timers()
        } else {
            start
        });

        let high = self.memory[self.pc];
        let low = self.memory[self.pc + 1];
        let a = (high & 0xf0) >> 4;
        let x = high & 0xf;
        let y = (low & 0xf0) >> 4;
        let b = low & 0xf;
        let nnn = (((high as u16) & 0xf) << 8) | low as u16;
        let opcode = ((high as u16) << 8) | low as u16;
        proof {
            assert((high & 0xf0) >> 4 == high / 16) by (bit_vector);
            assert(high & 0xf == high % 16) by (bit_vector);
            assert((low & 0xf0) >> 4 == low / 16) by (bit_vector);
            assert(low & 0xf == low % 16) by (bit_vector);
            assert((((high as u16) & 0xf) << 8) | low as u16 == (high % 16) * 256 + low)
                by (bit_vector);
            assert(((high as u16) << 8) | low as u16 == high * 256 + low) by (bit_vector);
        }

        let res = match (a, x, y, b) {
            (0, 0, 0xe, 0) => self.clear_screen(display_buffer),
            (0, 0, 0xe, 0xe) => self.ret(),
            (0, _, _, _) => self.noop(),
            (1, _, _, _) => self.jump(nnn as usize),
            (2, _, _, _) => self.call(nnn as usize),
            (3, _, _, _) => self.skip_reg_imm_eq(x, low),
            (4, _, _, _) => self.skip_reg_imm_neq(x, low),
            (5, _, _, 0) => self.skip_reg_reg_eq(x, y),
            (6, _, _, _) => self.load_imm(x, low),
            (7, _, _, _) => self.add_imm(x, low),
            (8, _, _, 0) => self.load_reg(x, y),
            (8, _, _, 1) => self.or_reg(x, y),
            (8, _, _, 2) => self.and_reg(x, y),
            (8, _, _, 3) => self.xor_reg(x, y),
            (8, _, _, 4) => self.add_reg(x, y),
            (8, _, _, 5) => self.sub_reg(x, y),
            (8, _, _, 6) => self.shr_reg(x),
            (8, _, _, 7) => self.subn_reg(x, y),
            (8, _, _, 0xe) => self.shl_reg(x),
            (9, _, _, 0) => self.skip_reg_reg_neq(x, y),
            (0xa, _, _, _) => self.set_i(nnn),
            (0xb, _, _, _) => self.jump_v0(nnn as usize),
            (0xc, _, _, _) => self.load_and_rnd_imm(x, low),
            (0xd, _, _, _) => self.draw_sprite(x, y, b, display_buffer),
            (0xe, _, 9, 0xe) => self.skip_keydown(x, keyboard),
            (0xe, _, 0xa, 1) => self.skip_not_keydown(x, keyboard),
            (0xf, _, 0, 7) => self.load_delay_timer(x),
            (0xf, _, 0, 0xa) => self.wait_keypress(x, keyboard),
            (0xf, _, 1, 5) => self.set_delay_timer(x),
            (0xf, _, 1, 8) => self.set_sound_timer(x),
            (0xf, _, 1, 0xe) => self.add_i_reg(x),
            (0xf, _, 2, 9) => self.load_sprite_address(x),
            (0xf, _, 3, 3) => self.store_bcd_representation(x),
            (0xf, _, 5, 5) => self.store_registers(x),
            (0xf, _, 6, 5) => self.read_registers(x),
            _ => Err(Chip8Error::InvalidInstruction { opcode, pc: self.pc }),
        };
        proof {
            let outcome = Outcome { result: res, machine: self@, frame: display_buffer@ };
            let random = if a == 0xc {
                choose|random: u8| self@ == #[trigger] fetched.load_and_imm(x as int, random, low)
            } else {
                0u8
            };
            assert(start.step(keys, frame, decrement_timers, random) == outcome);
            if !start.draws_random() {
                assert forall|other: u8| #[trigger]
                    start.step(keys, frame, decrement_timers, other) == outcome by {
                    fetched.lemma_execute_ignores_random(keys, frame, random, other);
                }
            }
        }
        res
    }
}

} // verus!
