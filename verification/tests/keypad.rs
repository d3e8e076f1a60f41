use rschip8::emulator::cpu::CPU;
use rschip8::emulator::input::{Key, Keyboard};
use rschip8::emulator::machine::MEMORY_SIZE;
use rschip8::emulator::ui::DisplayBuffer;

const ALL_KEYS: [Key; 16] = [
    Key::Num0,
    Key::Num1,
    Key::Num2,
    Key::Num3,
    Key::Num4,
    Key::Num5,
    Key::Num6,
    Key::Num7,
    Key::Num8,
    Key::Num9,
    Key::A,
    Key::B,
    Key::C,
    Key::D,
    Key::E,
    Key::F,
];

fn keycode(c: char) -> i32 {
    c as i32
}

#[test]
fn keys_have_the_codes_zero_to_fifteen() {
    for (code, key) in ALL_KEYS.iter().enumerate() {
        assert_eq!(key.chip8_code(), code as u8);
        assert_eq!(Key::from_chip8_code(code as u8), Some(*key));
    }
    assert_eq!(Key::A.chip8_code(), 0xa);
    assert_eq!(Key::F.chip8_code(), 0xf);
}

#[test]
fn codes_above_fifteen_name_no_key() {
    for code in 16..=255u8 {
        assert_eq!(Key::from_chip8_code(code), None);
    }
}

#[test]
fn keyboard_layout() {
    let layout = [
        ('1', Key::Num1),
        ('2', Key::Num2),
        ('3', Key::Num3),
        ('4', Key::C),
        ('q', Key::Num4),
        ('w', Key::Num5),
        ('e', Key::Num6),
        ('r', Key::D),
        ('a', Key::Num7),
        ('s', Key::Num8),
        ('d', Key::Num9),
        ('f', Key::E),
        ('z', Key::A),
        ('x', Key::Num0),
        ('c', Key::B),
        ('v', Key::F),
    ];
    for (c, key) in layout {
        assert_eq!(Key::from_keycode(keycode(c)), Some(key), "key {}", c);
    }
    for c in ['0', '5', '9', 'b', 'g', 'p', ' ', 'Q', 'X'] {
        assert_eq!(Key::from_keycode(keycode(c)), None, "key {}", c);
    }
    assert_eq!(Key::from_keycode(0), None);
    assert_eq!(Key::from_keycode(-1), None);
    assert_eq!(Key::from_keycode(0x4000_0051), None);
}

#[test]
fn new_keyboard_has_no_key_down() {
    let kb = Keyboard::new();
    for code in 0..=255u8 {
        assert!(!kb.is_key_pressed(code));
    }
    assert_eq!(kb.any_pressed_key(), None);
}

#[test]
fn key_down_and_key_up() {
    let mut kb = Keyboard::new();
    kb.key_down(keycode('q'));
    assert!(kb.is_key_pressed(4));
    for code in 0..16u8 {
        assert_eq!(kb.is_key_pressed(code), code == 4);
    }
    kb.key_down(keycode('q'));
    assert!(kb.is_key_pressed(4));
    kb.key_down(keycode('v'));
    assert!(kb.is_key_pressed(0xf));
    kb.key_up(keycode('q'));
    assert!(!kb.is_key_pressed(4));
    assert!(kb.is_key_pressed(0xf));
    kb.key_up(keycode('q'));
    assert!(!kb.is_key_pressed(4));
    kb.key_up(keycode('v'));
    assert_eq!(kb.any_pressed_key(), None);
}

#[test]
fn keys_outside_the_layout_are_ignored() {
    let mut kb = Keyboard::new();
    kb.key_down(keycode('p'));
    kb.key_down(keycode('0'));
    kb.key_down(-5);
    assert_eq!(kb.any_pressed_key(), None);
    kb.key_down(keycode('x'));
    kb.key_up(keycode('p'));
    assert_eq!(kb.any_pressed_key(), Some(0));
}

#[test]
fn codes_above_fifteen_are_never_pressed() {
    let mut kb = Keyboard::new();
    for c in "1234qwerasdfzxcv".chars() {
        kb.key_down(keycode(c));
    }
    for code in 0..16u8 {
        assert!(kb.is_key_pressed(code));
    }
    for code in 16..=255u8 {
        assert!(!kb.is_key_pressed(code));
    }
}

#[test]
fn any_pressed_key_is_the_lowest() {
    let mut kb = Keyboard::new();
    kb.key_down(keycode('v'));
    assert_eq!(kb.any_pressed_key(), Some(0xf));
    kb.key_down(keycode('4'));
    assert_eq!(kb.any_pressed_key(), Some(0xc));
    kb.key_down(keycode('2'));
    assert_eq!(kb.any_pressed_key(), Some(2));
    kb.key_down(keycode('x'));
    assert_eq!(kb.any_pressed_key(), Some(0));
    kb.key_up(keycode('x'));
    kb.key_up(keycode('2'));
    assert_eq!(kb.any_pressed_key(), Some(0xc));
}

#[test]
fn skip_keydown_and_skip_not_keydown() {
    let mut kb = Keyboard::new();
    kb.key_down(keycode('w'));
    let mut cpu = CPU::new([0u8; MEMORY_SIZE]);
    cpu.load_imm(1, 5).unwrap();
    cpu.load_imm(2, 6).unwrap();
    cpu.load_imm(3, 0x15).unwrap();
    let pc = cpu.pc();
    assert_eq!(cpu.skip_keydown(1, &kb), Ok(()));
    assert_eq!(cpu.pc(), pc + 4);
    assert_eq!(cpu.skip_keydown(2, &kb), Ok(()));
    assert_eq!(cpu.pc(), pc + 6);
    assert_eq!(cpu.skip_not_keydown(1, &kb), Ok(()));
    assert_eq!(cpu.pc(), pc + 8);
    assert_eq!(cpu.skip_not_keydown(2, &kb), Ok(()));
    assert_eq!(cpu.pc(), pc + 12);
    // A register that holds no key code: never down.
    assert_eq!(cpu.skip_keydown(3, &kb), Ok(()));
    assert_eq!(cpu.pc(), pc + 14);
    assert_eq!(cpu.skip_not_keydown(3, &kb), Ok(()));
    assert_eq!(cpu.pc(), pc + 18);
}

#[test]
fn wait_keypress_waits_until_a_key_is_down() {
    let mut kb = Keyboard::new();
    let mut cpu = CPU::new([0u8; MEMORY_SIZE]);
    cpu.load_imm(7, 0x99).unwrap();
    let pc = cpu.pc();
    for _ in 0..3 {
        assert_eq!(cpu.wait_keypress(7, &kb), Ok(()));
        assert_eq!(cpu.pc(), pc);
        assert_eq!(cpu.registers()[7], 0x99);
    }
    kb.key_down(keycode('f'));
    kb.key_down(keycode('d'));
    assert_eq!(cpu.wait_keypress(7, &kb), Ok(()));
    assert_eq!(cpu.pc(), pc + 2);
    assert_eq!(cpu.registers()[7], 9);
}

#[test]
fn key_instructions_through_tick() {
    // wait for a key into V1; skip if key V1 down; (skipped); skip if key V1 up; V2 = 1
    let program = [0xf1, 0x0a, 0xe1, 0x9e, 0x6f, 0xff, 0xe1, 0xa1, 0x62, 0x01];
    let mut cpu = CPU::load(&program).unwrap();
    let mut kb = Keyboard::new();
    let mut display = DisplayBuffer::new();
    for _ in 0..5 {
        assert_eq!(cpu.tick(&kb, &mut display, true), Ok(()));
        assert_eq!(cpu.pc(), 0x200);
    }
    kb.key_down(keycode('z'));
    assert_eq!(cpu.tick(&kb, &mut display, false), Ok(()));
    assert_eq!(cpu.registers()[1], 0xa);
    assert_eq!(cpu.pc(), 0x202);
    cpu.tick(&kb, &mut display, false).unwrap();
    assert_eq!(cpu.pc(), 0x206);
    cpu.tick(&kb, &mut display, false).unwrap();
    assert_eq!(cpu.pc(), 0x208);
    cpu.tick(&kb, &mut display, false).unwrap();
    assert_eq!(cpu.registers()[2], 1);
    assert_eq!(cpu.registers()[0xf], 0);
}
