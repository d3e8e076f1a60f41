//! The sixteen keys of the keypad and the record of which are held down.

use vstd::prelude::*;

verus! {

/// Number of keys on the keypad.
pub const KEY_COUNT: usize = 16;

/// One key of the hexadecimal keypad.
#[derive(Clone, Copy, Debug, PartialEq, Eq, Hash)]
pub enum Key {
    Num0,
    Num1,
    Num2,
    Num3,
    Num4,
    Num5,
    Num6,
    Num7,
    Num8,
    Num9,
    A,
    B,
    C,
    D,
    E,
    F,
}

impl Key {
    /// The hexadecimal digit printed on the key.
    pub open spec fn code(self) -> u8 {
        match self {
            Key::Num0 => 0x0,
            Key::Num1 => 0x1,
            Key::Num2 => 0x2,
            Key::Num3 => 0x3,
            Key::Num4 => 0x4,
            Key::Num5 => 0x5,
            Key::Num6 => 0x6,
            Key::Num7 => 0x7,
            Key::Num8 => 0x8,
            Key::Num9 => 0x9,
            Key::A => 0xa,
            Key::B => 0xb,
            Key::C => 0xc,
            Key::D => 0xd,
            Key::E => 0xe,
            Key::F => 0xf,
        }
    }

    /// The key with the given digit, if the digit is below sixteen.
    pub fn from_chip8_code(code: u8) -> (key: Option<Key>)
        ensures
            code < 16 <==> key is Some,
            key matches Some(k) ==> k.code() == code,
    {
        match code {
            0 => Some(Key::Num0),
            1 => Some(Key::Num1),
            2 => Some(Key::Num2),
            3 => Some(Key::Num3),
            4 => Some(Key::Num4),
            5 => Some(Key::Num5),
            6 => Some(Key::Num6),
            7 => Some(Key::Num7),
            8 => Some(Key::Num8),
            9 => Some(Key::Num9),
            0xa => Some(Key::A),
            0xb => Some(Key::B),
            0xc => Some(Key::C),
            0xd => Some(Key::D),
            0xe => Some(Key::E),
            0xf => Some(Key::F),
            _ => None,
        }
    }

    /// The key that a keyboard key stands for. `code` is the keycode of the
    /// keyboard key, which for a printable key is its lower-case ASCII
    /// character. The block `1234`, `qwer`, `asdf`, `zxcv` of a keyboard is
    /// laid over the keypad rows `123C`, `456D`, `789E`, `A0BF`.
    pub fn from_keycode(code: i32) -> (key: Option<Key>)
        ensures
            key == Key::of_keycode(code),
    {
        match code {
            0x31 => Some(Key::Num1),
            0x32 => Some(Key::Num2),
            0x33 => Some(Key::Num3),
            0x34 => Some(Key::C),
            0x71 => Some(Key::Num4),
            0x77 => Some(Key::Num5),
            0x65 => Some(Key::Num6),
            0x72 => Some(Key::D),
            0x61 => Some(Key::Num7),
            0x73 => Some(Key::Num8),
            0x64 => Some(Key::Num9),
            0x66 => Some(Key::E),
            0x7a => Some(Key::A),
            0x78 => Some(Key::Num0),
            0x63 => Some(Key::B),
            0x76 => Some(Key::F),
            _ => None,
        }
    }

    /// The layout of the keypad on a keyboard, by keycode.
    pub open spec fn of_keycode(code: i32) -> Option<Key> {
        if code == '1' as i32 {
            Some(Key::Num1)
        } else if code == '2' as i32 {
            Some(Key::Num2)
        } else if code == '3' as i32 {
            Some(Key::Num3)
        } else if code == '4' as i32 {
            Some(Key::C)
        } else if code == 'q' as i32 {
            Some(Key::Num4)
        } else if code == 'w' as i32 {
            Some(Key::Num5)
        } else if code == 'e' as i32 {
            Some(Key::Num6)
        } else if code == 'r' as i32 {
            Some(Key::D)
        } else if code == 'a' as i32 {
            Some(Key::Num7)
        } else if code == 's' as i32 {
            Some(Key::Num8)
        } else if code == 'd' as i32 {
            Some(Key::Num9)
        } else if code == 'f' as i32 {
            Some(Key::E)
        } else if code == 'z' as i32 {
            Some(Key::A)
        } else if code == 'x' as i32 {
            Some(Key::Num0)
        } else if code == 'c' as i32 {
            Some(Key::B)
        } else if code == 'v' as i32 {
            Some(Key::F)
        } else {
            None
        }
    }

    /// The digit of the key.
    pub fn chip8_code(&self) -> (code: u8)
        ensures
            code == self.code(),
            code < 16,
    {
        match *self {
            Key::Num0 => 0,
            Key::Num1 => 1,
            Key::Num2 => 2,
            Key::Num3 => 3,
            Key::Num4 => 4,
            Key::Num5 => 5,
            Key::Num6 => 6,
            Key::Num7 => 7,
            Key::Num8 => 8,
            Key::Num9 => 9,
            Key::A => 0xa,
            Key::B => 0xb,
            Key::C => 0xc,
            Key::D => 0xd,
            Key::E => 0xe,
            Key::F => 0xf,
        }
    }
}


/// The lowest key at or above `from` that is held down in `keys`.
pub open spec fn lowest_pressed_from(keys: Seq<bool>, from: int) -> Option<u8>
    decreases KEY_COUNT - from,
{
    if from < 0 || from >= KEY_COUNT {
        None
    } else if keys[from] {
        Some(from as u8)
    } else {
        lowest_pressed_from(keys, from + 1)
    }
}

/// The lowest key that is held down in `keys`, if any is.
pub open spec fn lowest_pressed(keys: Seq<bool>) -> Option<u8> {
    lowest_pressed_from(keys, 0)
}

/// `lowest_pressed_from` finds a key that is down, skips only keys that are
/// up, and finds nothing only where every key from `from` on is up.
pub proof fn lemma_lowest_pressed_from(keys: Seq<bool>, from: int)
    requires
        0 <= from <= KEY_COUNT,
    ensures
        match lowest_pressed_from(keys, from) {
            Some(code) => {
                &&& from <= code < KEY_COUNT
                &&& keys[code as int]
                &&& forall|k: int| from <= k < code ==> !keys[k]
            },
            None => forall|k: int| from <= k < KEY_COUNT ==> !keys[k],
        },
    decreases KEY_COUNT - from,
{
    if from < KEY_COUNT && !keys[from] {
        lemma_lowest_pressed_from(keys, from + 1);
    }
}

/// Which keys of the keypad are held down.
pub struct Keyboard {
    state: [bool; KEY_COUNT],
}

impl View for Keyboard {
    type V = Seq<bool>;

    /// Entry `k` tells whether the key with digit `k` is down.
    closed spec fn view(&self) -> Seq<bool> {
        self.state@
    }
}

impl Keyboard {
    /// A keypad with no key held down.
    pub fn new() -> (kb: Keyboard)
        ensures
            kb@ == Seq::new(KEY_COUNT as nat, |k: int| false),
    {
        let kb = Keyboard { state: [false; KEY_COUNT] };
        assert(kb@ =~= Seq::new(KEY_COUNT as nat, |k: int| false));
        kb
    }

    /// Records that the keyboard key with keycode `code` went down. Keys
    /// that stand for no key of the keypad are ignored.
    pub fn key_down(&mut self, code: i32)
        ensures
            final(self)@ == match Key::of_keycode(code) {
                Some(key) => old(self)@.update(key.code() as int, true),
                None => old(self)@,
            },
    {
        if let Some(key) = Key::from_keycode(code) {
            self.state[key.chip8_code() as usize] = true;
        }
    }

    /// Records that the keyboard key with keycode `code` came up. Keys that
    /// stand for no key of the keypad are ignored.
    pub fn key_up(&mut self, code: i32)
        ensures
            final(self)@ == match Key::of_keycode(code) {
                Some(key) => old(self)@.update(key.code() as int, false),
                None => old(self)@,
            },
    {
        if let Some(key) = Key::from_keycode(code) {
            self.state[key.chip8_code() as usize] = false;
        }
    }

    /// Whether the key with digit `code` is down. No key has a digit above
    /// fifteen, so none of those is ever down.
    pub fn is_key_pressed(&self, code: u8) -> (pressed: bool)
        ensures
            pressed == (code < KEY_COUNT && self@[code as int]),
    {
        match Key::from_chip8_code(code) {
            Some(key) => self.state[key.chip8_code() as usize],
            None => false,
        }
    }

    /// The digit of the lowest key that is down, if any key is.
    #[verifier::loop_isolation(false)]
    pub fn any_pressed_key(&self) -> (found: Option<u8>)
        ensures
            found == lowest_pressed(self@),
            match found {
                Some(code) => {
                    &&& code < KEY_COUNT
                    &&& self@[code as int]
                    &&& forall|k: int| 0 <= k < code ==> !self@[k]
                },
                None => forall|k: int| 0 <= k < KEY_COUNT ==> !self@[k],
            },
    {
        proof {
            lemma_lowest_pressed_from(self@, 0);
        }
        let mut code: u8 = 0;
        while code < 16
            invariant
                code <= 16,
                lowest_pressed(self@) == lowest_pressed_from(self@, code as int),
            decreases 16 - code,
        {
            if self.is_key_pressed(code) {
                return Some(code);
            }
            code += 1;
        }
        None
    }
}

} // verus!
