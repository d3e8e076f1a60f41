//! What holds of the instruction set as a whole, proved from the model of
//! the machine.

use crate::emulator::machine::bcd_digits;
use crate::emulator::machine::Machine;
use crate::emulator::machine::FLAG;
use crate::emulator::machine::MEMORY_SIZE;
use crate::emulator::machine::REGISTER_COUNT;
use crate::emulator::ui::blit;
use crate::emulator::ui::erases;
use crate::emulator::ui::is_grid;
use crate::emulator::ui::sprite_covers;
use crate::emulator::ui::Frame;
use crate::emulator::ui::HEIGHT;
use crate::emulator::ui::WIDTH;
use vstd::prelude::*;

verus! {

/// Adding two registers leaves in the flag register the carry of the true
/// sum: 1 where the sum does not fit in a byte, 0 where it does. This holds
/// also where one of the two registers is the flag register.
pub proof fn lemma_add_sets_carry(m: Machine, x: int, y: int)
    requires
        m.wf(),
        0 <= x < REGISTER_COUNT,
        0 <= y < REGISTER_COUNT,
    ensures
        m.add_reg(x, y).registers[FLAG as int] == (m.registers[x] + m.registers[y]) / 256,
        m.add_reg(x, y).registers[FLAG as int] == 1 <==> m.registers[x] + m.registers[y] > 255,
        x != FLAG ==> m.add_reg(x, y).registers[x] == (m.registers[x] + m.registers[y]) % 256,
{
}

/// Subtracting leaves 1 in the flag register exactly where the minuend is
/// at least the subtrahend, so that nothing was borrowed, and 0 otherwise;
/// in both orders of the operands.
pub proof fn lemma_sub_sets_no_borrow(m: Machine, x: int, y: int)
    requires
        m.wf(),
        0 <= x < REGISTER_COUNT,
        0 <= y < REGISTER_COUNT,
    ensures
        m.sub_reg(x, y).registers[FLAG as int] == (if m.registers[x] >= m.registers[y] {
            1u8
        } else {
            0u8
        }),
        m.subn_reg(x, y).registers[FLAG as int] == (if m.registers[y] >= m.registers[x] {
            1u8
        } else {
            0u8
        }),
        x != FLAG && m.registers[x] >= m.registers[y] ==> m.sub_reg(x, y).registers[x]
            == m.registers[x] - m.registers[y],
        x != FLAG && m.registers[x] < m.registers[y] ==> m.sub_reg(x, y).registers[x]
            == m.registers[x] - m.registers[y] + 256,
{
}

/// A shift of a register other than the flag register leaves in the flag
/// register the bit that was shifted out: the lowest bit for a shift to the
/// right, the highest for a shift to the left.
pub proof fn lemma_shift_keeps_lost_bit(m: Machine, x: int)
    requires
        m.wf(),
        0 <= x < REGISTER_COUNT,
        x != FLAG,
    ensures
        m.shr_reg(x).registers[FLAG as int] == m.registers[x] % 2,
        m.shr_reg(x).registers[x] == m.registers[x] / 2,
        m.registers[x] == 2 * m.shr_reg(x).registers[x] + m.shr_reg(x).registers[FLAG as int],
        m.shl_reg(x).registers[FLAG as int] == m.registers[x] / 128,
        m.shl_reg(x).registers[x] == (2 * m.registers[x]) % 256,
        2 * m.registers[x] == 256 * m.shl_reg(x).registers[FLAG as int] + m.shl_reg(
            x,
        ).registers[x],
{
}

/// Drawing a sprite twice at the same place leaves the grid as it was: the
/// second draw turns off exactly the pixels that the first one turned on,
/// and turns on again the ones that the first turned off.
pub proof fn lemma_blit_twice(pixels: Seq<Seq<bool>>, sprite: Seq<u8>, x: int, y: int)
    requires
        is_grid(pixels),
    ensures
        blit(blit(pixels, sprite, x, y), sprite, x, y) == pixels,
        forall|row: int, col: int|
            #![trigger erases(blit(pixels, sprite, x, y), sprite, x, y, row, col)]
            0 <= row < HEIGHT && 0 <= col < WIDTH ==> (erases(
                blit(pixels, sprite, x, y),
                sprite,
                x,
                y,
                row,
                col,
            ) <==> !pixels[row][col] && sprite_covers(sprite, x, y, row, col)),
{
    let once = blit(pixels, sprite, x, y);
    let twice = blit(once, sprite, x, y);
    assert forall|row: int| 0 <= row < HEIGHT implies #[trigger] twice[row] == pixels[row] by {
        assert(twice[row] =~= pixels[row]);
    }
    assert(twice =~= pixels);
}

/// The draw instruction run twice shows what was shown before, provided
/// that the first run left the two position registers as they were, so
/// that the second run draws at the same place. (The first run writes the
/// flag register; a position taken from that register may move.)
pub proof fn lemma_draw_sprite_twice(m: Machine, pixels: Seq<Seq<bool>>, x: int, y: int, count: int)
    requires
        m.wf(),
        is_grid(pixels),
        0 <= x < REGISTER_COUNT,
        0 <= y < REGISTER_COUNT,
        0 <= count,
        m.i + count <= MEMORY_SIZE,
        m.draw_sprite(pixels, x, y, count).registers[x] == m.registers[x],
        m.draw_sprite(pixels, x, y, count).registers[y] == m.registers[y],
    ensures
        m.draw_sprite(pixels, x, y, count).drawn(m.drawn(pixels, x, y, count).pixels, x, y, count).pixels
            == pixels,
{
    let once = m.draw_sprite(pixels, x, y, count);
    assert(once.sprite(count) == m.sprite(count));
    lemma_blit_twice(pixels, m.sprite(count), m.registers[x] as int, m.registers[y] as int);
}

/// The three digits that the decimal store writes are decimal digits, and
/// they make up the value again.
pub proof fn lemma_bcd_digits(value: u8)
    ensures
        bcd_digits(value).0 == value / 100,
        bcd_digits(value).1 == (value / 10) % 10,
        bcd_digits(value).2 == value % 10,
        bcd_digits(value).0 <= 2,
        bcd_digits(value).1 <= 9,
        bcd_digits(value).2 <= 9,
        100 * bcd_digits(value).0 + 10 * bcd_digits(value).1 + bcd_digits(value).2 == value,
{
}

/// After the decimal store the three bytes at `I` hold the hundreds, tens
/// and ones of the stored register.
pub proof fn lemma_store_bcd(m: Machine, x: int)
    requires
        m.wf(),
        0 <= x < REGISTER_COUNT,
        m.i + 2 < MEMORY_SIZE,
    ensures
        m.store_bcd_representation(x).memory[m.i as int] == m.registers[x] / 100,
        m.store_bcd_representation(x).memory[m.i + 1] == (m.registers[x] / 10) % 10,
        m.store_bcd_representation(x).memory[m.i + 2] == m.registers[x] % 10,
        forall|address: int|
            0 <= address < MEMORY_SIZE && !(m.i <= address <= m.i + 2)
                ==> m.store_bcd_representation(x).memory[address] == m.memory[address],
{
}

/// The address of a glyph is five times its digit.
pub proof fn lemma_sprite_address(m: Machine, x: int)
    requires
        m.wf(),
        0 <= x < REGISTER_COUNT,
    ensures
        m.load_sprite_address(x).i == 5 * m.registers[x],
{
}

/// Storing the registers `V0` to `Vx` and loading them again from the same
/// address brings back every register as it was.
pub proof fn lemma_store_then_read_registers(m: Machine, x: int)
    requires
        m.wf(),
        0 <= x < REGISTER_COUNT,
        m.i + x < MEMORY_SIZE,
    ensures
        m.store_registers(x).read_registers(x).registers == m.registers,
        m.store_registers(x).read_registers(x).memory == m.store_registers(x).memory,
        m.store_registers(x).read_registers(x).i == m.i,
{
    let stored = m.store_registers(x);
    let back = stored.read_registers(x);
    assert(back.registers =~= m.registers);
}

/// A tick takes a machine state with the right sizes to one with the right
/// sizes: memory and registers keep their lengths, the stack never holds
/// more than sixteen return addresses, and the program counter stays at or
/// above zero.
pub proof fn lemma_step_preserves_wf(
    m: Machine,
    keys: Seq<bool>,
    frame: Frame,
    decrement: bool,
    random: u8,
)
    requires
        m.wf(),
    ensures
        m.step(keys, frame, decrement, random).machine.wf(),
{
    let fetched = if decrement {
        m.decrement_timers()
    } else {
        m
    };
    if m.can_fetch() {
        assert(fetched.wf());
        assert(m.step(keys, frame, decrement, random) == fetched.execute(keys, frame, random));
    }
}

/// A tick that fails changes nothing, except that the timers have gone
/// down where the instruction was reached and `decrement` was set.
pub proof fn lemma_failed_step_changes_only_timers(
    m: Machine,
    keys: Seq<bool>,
    frame: Frame,
    decrement: bool,
    random: u8,
)
    requires
        m.step(keys, frame, decrement, random).result is Err,
    ensures
        m.step(keys, frame, decrement, random).frame == frame,
        m.step(keys, frame, decrement, random).machine == (if m.can_fetch() && decrement {
            m.decrement_timers()
        } else {
            m
        }),
{
}

} // verus!
