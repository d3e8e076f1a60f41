use rschip8::emulator::cpu::CPU;
use rschip8::emulator::input::Keyboard;
use rschip8::emulator::machine::MEMORY_SIZE;
use rschip8::emulator::ui::{Buffer, DisplayBuffer, HEIGHT, WIDTH};
use rschip8::emulator::{Chip8Error, MemoryAccess};

fn machine_with(sprite: &[u8], at: usize) -> CPU {
    let mut memory = [0u8; MEMORY_SIZE];
    memory[at..at + sprite.len()].copy_from_slice(sprite);
    let mut cpu = CPU::new(memory);
    cpu.set_i(at as u16).unwrap();
    cpu
}

fn lit(buffer: &Buffer) -> Vec<(usize, usize)> {
    let mut pixels = Vec::new();
    for row in 0..HEIGHT {
        for col in 0..WIDTH {
            if buffer[row][col] {
                pixels.push((row, col));
            }
        }
    }
    pixels
}

#[test]
fn display_has_64_by_32_pixels() {
    assert_eq!(WIDTH, 64);
    assert_eq!(HEIGHT, 32);
    let display = DisplayBuffer::new();
    assert!(display.is_dirty);
    assert_eq!(lit(&display.buffer), vec![]);
    assert_eq!(display.buffer.len(), 32);
    assert_eq!(display.buffer[0].len(), 64);
}

#[test]
fn draw_byte_puts_the_high_bit_on_the_left() {
    let mut cpu = CPU::new([0u8; MEMORY_SIZE]);
    let mut display = DisplayBuffer::new();
    display.is_dirty = false;
    assert!(!cpu.draw_byte(10, 5, 0b1010_0001, &mut display));
    assert_eq!(lit(&display.buffer), vec![(5, 10), (5, 12), (5, 17)]);
    assert!(!display.is_dirty);
    assert_eq!(cpu.pc(), 0x200);
}

#[test]
fn draw_byte_wraps_columns_and_rows() {
    let mut cpu = CPU::new([0u8; MEMORY_SIZE]);
    let mut display = DisplayBuffer::new();
    assert!(!cpu.draw_byte(62, 33, 0b1111_0000, &mut display));
    assert_eq!(lit(&display.buffer), vec![(1, 0), (1, 1), (1, 62), (1, 63)]);
    let mut display = DisplayBuffer::new();
    assert!(!cpu.draw_byte(64 * 3 + 2, 32 * 5, 0b1000_0000, &mut display));
    assert_eq!(lit(&display.buffer), vec![(0, 2)]);
}

#[test]
fn draw_byte_reports_pixels_that_go_off() {
    let mut cpu = CPU::new([0u8; MEMORY_SIZE]);
    let mut display = DisplayBuffer::new();
    display.buffer[3][8] = true;
    display.buffer[3][20] = true;
    // Covers column 8 with a clear bit only: no collision.
    assert!(!cpu.draw_byte(8, 3, 0b0100_0000, &mut display));
    assert_eq!(lit(&display.buffer), vec![(3, 8), (3, 9), (3, 20)]);
    // Now a set bit lands on the lit pixel at column 8.
    assert!(cpu.draw_byte(8, 3, 0b1000_0001, &mut display));
    assert_eq!(lit(&display.buffer), vec![(3, 9), (3, 15), (3, 20)]);
}

#[test]
fn draw_sprite_draws_one_row_for_each_byte() {
    let mut cpu = machine_with(&[0xf0, 0x90, 0x90, 0x90, 0xf0], 0x300);
    cpu.load_imm(1, 4).unwrap();
    cpu.load_imm(2, 2).unwrap();
    cpu.load_imm(0xf, 7).unwrap();
    let mut display = DisplayBuffer::new();
    display.is_dirty = false;
    let pc = cpu.pc();
    assert_eq!(cpu.draw_sprite(1, 2, 5, &mut display), Ok(()));
    let mut expected = Vec::new();
    for col in 4..8 {
        expected.push((2, col));
    }
    for row in 3..6 {
        expected.push((row, 4));
        expected.push((row, 7));
    }
    for col in 4..8 {
        expected.push((6, col));
    }
    assert_eq!(lit(&display.buffer), expected);
    assert!(display.is_dirty);
    assert_eq!(cpu.registers()[0xf], 0);
    assert_eq!(cpu.pc(), pc + 2);
    assert_eq!(cpu.i_register(), 0x300);
}

#[test]
fn draw_sprite_wraps_past_the_bottom() {
    let mut cpu = machine_with(&[0x80, 0x80, 0x80], 0x300);
    cpu.load_imm(1, 0).unwrap();
    cpu.load_imm(2, 31).unwrap();
    let mut display = DisplayBuffer::new();
    cpu.draw_sprite(1, 2, 3, &mut display).unwrap();
    assert_eq!(lit(&display.buffer), vec![(0, 0), (1, 0), (31, 0)]);
}

#[test]
fn draw_sprite_takes_positions_modulo_the_display() {
    let mut cpu = machine_with(&[0xc0], 0x300);
    cpu.load_imm(1, 64 + 63).unwrap();
    cpu.load_imm(2, 32 * 7 + 5).unwrap();
    let mut display = DisplayBuffer::new();
    cpu.draw_sprite(1, 2, 1, &mut display).unwrap();
    assert_eq!(lit(&display.buffer), vec![(5, 0), (5, 63)]);
}

#[test]
fn draw_sprite_of_no_bytes_only_marks_the_display() {
    let mut cpu = machine_with(&[0xff], 0x300);
    cpu.load_imm(0xf, 1).unwrap();
    let mut display = DisplayBuffer::new();
    display.is_dirty = false;
    display.buffer[0][0] = true;
    assert_eq!(cpu.draw_sprite(0, 0, 0, &mut display), Ok(()));
    assert_eq!(lit(&display.buffer), vec![(0, 0)]);
    assert!(display.is_dirty);
    assert_eq!(cpu.registers()[0xf], 0);
}

#[test]
fn drawing_twice_restores_the_display() {
    let sprite = [0x3c, 0x42, 0xa5, 0x81, 0xa5, 0x99, 0x42, 0x3c];
    for (x, y) in [(0u8, 0u8), (60, 28), (63, 31), (200, 100)] {
        let mut cpu = machine_with(&sprite, 0x300);
        cpu.load_imm(1, x).unwrap();
        cpu.load_imm(2, y).unwrap();
        let mut display = DisplayBuffer::new();
        display.buffer[0][0] = true;
        display.buffer[30][62] = true;
        display.buffer[5][5] = true;
        let before = display.buffer;
        cpu.draw_sprite(1, 2, 8, &mut display).unwrap();
        let turned_on = lit(&display.buffer)
            .iter()
            .filter(|(r, c)| !before[*r][*c])
            .count();
        assert_ne!(display.buffer, before);
        cpu.draw_sprite(1, 2, 8, &mut display).unwrap();
        assert_eq!(display.buffer, before);
        // The second draw turned off what the first turned on.
        assert_eq!(cpu.registers()[0xf], if turned_on > 0 { 1 } else { 0 });
    }
}

#[test]
fn second_draw_collides_and_first_does_not() {
    let mut cpu = machine_with(&[0xff, 0xff], 0x300);
    cpu.load_imm(1, 8).unwrap();
    cpu.load_imm(2, 8).unwrap();
    let mut display = DisplayBuffer::new();
    cpu.draw_sprite(1, 2, 2, &mut display).unwrap();
    assert_eq!(cpu.registers()[0xf], 0);
    assert_eq!(lit(&display.buffer).len(), 16);
    cpu.draw_sprite(1, 2, 2, &mut display).unwrap();
    assert_eq!(cpu.registers()[0xf], 1);
    assert_eq!(lit(&display.buffer), vec![]);
}

#[test]
fn collision_in_the_last_row_only_is_reported() {
    let mut cpu = machine_with(&[0x80, 0x80, 0x80], 0x300);
    cpu.load_imm(1, 0).unwrap();
    cpu.load_imm(2, 0).unwrap();
    let mut display = DisplayBuffer::new();
    display.buffer[2][0] = true;
    cpu.draw_sprite(1, 2, 3, &mut display).unwrap();
    assert_eq!(cpu.registers()[0xf], 1);
    assert_eq!(lit(&display.buffer), vec![(0, 0), (1, 0)]);
}

#[test]
fn draw_sprite_up_to_the_end_of_memory() {
    let mut cpu = machine_with(&[0x80, 0x80], 4094);
    let mut display = DisplayBuffer::new();
    assert_eq!(cpu.draw_sprite(0, 0, 2, &mut display), Ok(()));
    assert_eq!(lit(&display.buffer), vec![(0, 0), (1, 0)]);
}

#[test]
fn draw_sprite_past_the_end_of_memory_fails() {
    let mut cpu = machine_with(&[0x80, 0x80], 4094);
    cpu.load_imm(0xf, 9).unwrap();
    let mut display = DisplayBuffer::new();
    display.is_dirty = false;
    let pc = cpu.pc();
    assert_eq!(
        cpu.draw_sprite(0, 0, 3, &mut display),
        Err(Chip8Error::MemoryBoundsError {
            access: MemoryAccess::SpriteRead,
            address: 4094,
            count: 3
        })
    );
    assert_eq!(lit(&display.buffer), vec![]);
    assert!(!display.is_dirty);
    assert_eq!(cpu.registers()[0xf], 9);
    assert_eq!(cpu.pc(), pc);
}

#[test]
fn clear_screen_turns_everything_off() {
    let mut cpu = CPU::new([0u8; MEMORY_SIZE]);
    let mut display = DisplayBuffer::new();
    for row in 0..HEIGHT {
        for col in 0..WIDTH {
            display.buffer[row][col] = (row + col) % 3 == 0;
        }
    }
    display.is_dirty = false;
    assert_eq!(cpu.clear_screen(&mut display), Ok(()));
    assert_eq!(lit(&display.buffer), vec![]);
    assert!(display.is_dirty);
    assert_eq!(cpu.pc(), 0x202);
}

#[test]
fn draw_and_clear_through_tick() {
    // V0 = 3; I = glyph of V0; V1 = 10; V2 = 20; draw 5 bytes at (V1, V2); clear
    let program = [0x60, 3, 0xf0, 0x29, 0x61, 10, 0x62, 20, 0xd1, 0x25, 0x00, 0xe0];
    let mut cpu = CPU::load(&program).unwrap();
    let kb = Keyboard::new();
    let mut display = DisplayBuffer::new();
    display.is_dirty = false;
    for _ in 0..4 {
        cpu.tick(&kb, &mut display, false).unwrap();
    }
    assert!(!display.is_dirty);
    cpu.tick(&kb, &mut display, false).unwrap();
    // The glyph of 3: f0 10 f0 10 f0.
    let mut expected = Vec::new();
    for (k, byte) in [0xf0u8, 0x10, 0xf0, 0x10, 0xf0].iter().enumerate() {
        for bit in 0..8 {
            if byte & (0x80 >> bit) != 0 {
                expected.push((20 + k, 10 + bit));
            }
        }
    }
    assert_eq!(lit(&display.buffer), expected);
    assert!(display.is_dirty);
    display.is_dirty = false;
    cpu.tick(&kb, &mut display, false).unwrap();
    assert_eq!(lit(&display.buffer), vec![]);
    assert!(display.is_dirty);
    assert_eq!(cpu.pc(), 0x20c);
}

#[test]
fn instructions_that_do_not_draw_leave_the_display_alone() {
    let program = [0x60, 3, 0x70, 1, 0x12, 0x06, 0x00, 0x00];
    let mut cpu = CPU::load(&program).unwrap();
    let kb = Keyboard::new();
    let mut display = DisplayBuffer::new();
    display.buffer[7][7] = true;
    display.is_dirty = false;
    for _ in 0..4 {
        cpu.tick(&kb, &mut display, true).unwrap();
    }
    assert_eq!(lit(&display.buffer), vec![(7, 7)]);
    assert!(!display.is_dirty);
}
