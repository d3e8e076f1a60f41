use rschip8::emulator::cpu::CPU;
use rschip8::emulator::input::Keyboard;
use rschip8::emulator::ui::DisplayBuffer;
use rschip8::emulator::Chip8Error;

fn run(cpu: &mut CPU, display: &mut DisplayBuffer, ticks: usize) {
    let kb = Keyboard::new();
    for _ in 0..ticks {
        assert_eq!(cpu.tick(&kb, display, false), Ok(()));
    }
}

#[test]
fn load_immediate_then_tick() {
    let mut cpu = CPU::load(&[0x60, 0x05]).unwrap();
    let kb = Keyboard::new();
    let mut display = DisplayBuffer::new();
    assert_eq!(cpu.pc(), 0x200);
    assert_eq!(cpu.tick(&kb, &mut display, false), Ok(()));
    assert_eq!(cpu.registers()[0], 5);
    assert_eq!(cpu.pc(), 0x202);
}

#[test]
fn add_immediate_after_load_immediate() {
    let mut cpu = CPU::load(&[0x60, 0x05, 0x70, 0x01]).unwrap();
    let mut display = DisplayBuffer::new();
    run(&mut cpu, &mut display, 2);
    assert_eq!(cpu.registers()[0], 6);
    assert_eq!(cpu.pc(), 0x204);
}

#[test]
fn seventeenth_call_overflows_the_stack() {
    // Each instruction calls the one that follows it.
    let mut program = Vec::new();
    for k in 0..17u16 {
        let target = 0x202 + 2 * k;
        program.push(0x20 | (target >> 8) as u8);
        program.push((target & 0xff) as u8);
    }
    let mut cpu = CPU::load(&program).unwrap();
    let kb = Keyboard::new();
    let mut display = DisplayBuffer::new();
    for k in 0..16usize {
        assert_eq!(cpu.tick(&kb, &mut display, false), Ok(()));
        assert_eq!(cpu.stack_depth(), k + 1);
        assert_eq!(cpu.return_address(), Some(0x202 + 2 * k as u16));
    }
    let pc = cpu.pc();
    assert_eq!(cpu.tick(&kb, &mut display, false), Err(Chip8Error::StackOverflow));
    assert_eq!(cpu.stack_depth(), 16);
    assert_eq!(cpu.pc(), pc);
}

#[test]
fn return_with_empty_stack_underflows() {
    let mut cpu = CPU::load(&[0x00, 0xee]).unwrap();
    let kb = Keyboard::new();
    let mut display = DisplayBuffer::new();
    assert_eq!(cpu.tick(&kb, &mut display, false), Err(Chip8Error::StackUnderflow));
    assert_eq!(cpu.pc(), 0x200);
    assert_eq!(cpu.stack_depth(), 0);
}

#[test]
fn bcd_of_157() {
    // V3 = 157; I = 0x300; store the decimal digits of V3.
    let mut cpu = CPU::load(&[0x63, 157, 0xa3, 0x00, 0xf3, 0x33]).unwrap();
    let mut display = DisplayBuffer::new();
    run(&mut cpu, &mut display, 3);
    assert_eq!(cpu.memory()[0x300], 1);
    assert_eq!(cpu.memory()[0x301], 5);
    assert_eq!(cpu.memory()[0x302], 7);
    assert_eq!(cpu.memory()[0x303], 0);
    assert_eq!(cpu.pc(), 0x206);
}

#[test]
fn sprite_row_near_the_right_edge_wraps() {
    // V0 = 60 (column), V1 = 0 (row), I = 0x208, draw one byte.
    let program = [0x60, 60, 0x61, 0, 0xa2, 0x08, 0xd0, 0x11, 0b1111_0000];
    let mut cpu = CPU::load(&program).unwrap();
    let mut display = DisplayBuffer::new();
    display.is_dirty = false;
    run(&mut cpu, &mut display, 4);
    for col in 0..64 {
        assert_eq!(display.buffer[0][col], col >= 60, "column {}", col);
    }
    assert!(display.is_dirty);
    assert_eq!(cpu.registers()[0xf], 0);
}

#[test]
fn low_bits_of_a_sprite_row_come_back_in_on_the_left() {
    let program = [0x60, 60, 0x61, 0, 0xa2, 0x08, 0xd0, 0x11, 0b0000_1111];
    let mut cpu = CPU::load(&program).unwrap();
    let mut display = DisplayBuffer::new();
    run(&mut cpu, &mut display, 4);
    for col in 0..64 {
        assert_eq!(display.buffer[0][col], col < 4, "column {}", col);
    }
    for row in 1..32 {
        for col in 0..64 {
            assert!(!display.buffer[row][col]);
        }
    }
}

#[test]
fn a_program_that_counts_with_a_loop() {
    // V0 = 0; loop: V0 += 1; skip if V0 == 10; jump loop; V1 = 0xaa.
    let program = [0x60, 0x00, 0x70, 0x01, 0x30, 0x0a, 0x12, 0x02, 0x61, 0xaa];
    let mut cpu = CPU::load(&program).unwrap();
    let mut display = DisplayBuffer::new();
    run(&mut cpu, &mut display, 1 + 3 * 9 + 2 + 1);
    assert_eq!(cpu.registers()[0], 10);
    assert_eq!(cpu.registers()[1], 0xaa);
    assert_eq!(cpu.pc(), 0x20a);
}
