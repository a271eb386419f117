//! Keyboard and controller state, as the host's input singletons hold it,
//! and the queries that extensions and scripts make on it.
use vstd::prelude::*;

verus! {

/// A controller button; each stands for one bit of the controller's state words.
#[derive(Clone, Copy, Debug, PartialEq, Eq, Structural, Hash)]
pub enum ControllerButton {
    Share,
    L3,
    R3,
    Options,
    Up,
    Right,
    Down,
    Left,
    L1,
    R1,
    L2,
    R2,
    Triangle,
    Circle,
    Cross,
    Square,
    LsUp,
    LsRight,
    LsDown,
    LsLeft,
    RsUp,
    RsRight,
    RsDown,
    RsLeft,
}

/// The bit of a button in the controller's state words.
pub open spec fn button_bit(b: ControllerButton) -> u32 {
    match b {
        ControllerButton::Share => 1u32 << 0u32,
        ControllerButton::L3 => 1u32 << 1u32,
        ControllerButton::R3 => 1u32 << 2u32,
        ControllerButton::Options => 1u32 << 3u32,
        ControllerButton::Up => 1u32 << 4u32,
        ControllerButton::Right => 1u32 << 5u32,
        ControllerButton::Down => 1u32 << 6u32,
        ControllerButton::Left => 1u32 << 7u32,
        ControllerButton::L1 => 1u32 << 8u32,
        ControllerButton::R1 => 1u32 << 9u32,
        ControllerButton::L2 => 1u32 << 10u32,
        ControllerButton::R2 => 1u32 << 11u32,
        ControllerButton::Triangle => 1u32 << 12u32,
        ControllerButton::Circle => 1u32 << 13u32,
        ControllerButton::Cross => 1u32 << 14u32,
        ControllerButton::Square => 1u32 << 15u32,
        ControllerButton::LsUp => 1u32 << 16u32,
        ControllerButton::LsRight => 1u32 << 17u32,
        ControllerButton::LsDown => 1u32 << 18u32,
        ControllerButton::LsLeft => 1u32 << 19u32,
        ControllerButton::RsUp => 1u32 << 20u32,
        ControllerButton::RsRight => 1u32 << 21u32,
        ControllerButton::RsDown => 1u32 << 22u32,
        ControllerButton::RsLeft => 1u32 << 23u32,
    }
}

impl ControllerButton {
    /// The bit of the button.
    pub fn bit(self) -> (r: u32)
        ensures
            r == button_bit(self),
    {
        match self {
            ControllerButton::Share => 1u32 << 0u32,
            ControllerButton::L3 => 1u32 << 1u32,
            ControllerButton::R3 => 1u32 << 2u32,
            ControllerButton::Options => 1u32 << 3u32,
            ControllerButton::Up => 1u32 << 4u32,
            ControllerButton::Right => 1u32 << 5u32,
            ControllerButton::Down => 1u32 << 6u32,
            ControllerButton::Left => 1u32 << 7u32,
            ControllerButton::L1 => 1u32 << 8u32,
            ControllerButton::R1 => 1u32 << 9u32,
            ControllerButton::L2 => 1u32 << 10u32,
            ControllerButton::R2 => 1u32 << 11u32,
            ControllerButton::Triangle => 1u32 << 12u32,
            ControllerButton::Circle => 1u32 << 13u32,
            ControllerButton::Cross => 1u32 << 14u32,
            ControllerButton::Square => 1u32 << 15u32,
            ControllerButton::LsUp => 1u32 << 16u32,
            ControllerButton::LsRight => 1u32 << 17u32,
            ControllerButton::LsDown => 1u32 << 18u32,
            ControllerButton::LsLeft => 1u32 << 19u32,
            ControllerButton::RsUp => 1u32 << 20u32,
            ControllerButton::RsRight => 1u32 << 21u32,
            ControllerButton::RsDown => 1u32 << 22u32,
            ControllerButton::RsLeft => 1u32 << 23u32,
        }
    }

    /// The button whose bit is `bits`.
    pub fn from_repr(bits: u32) -> (r: Option<ControllerButton>)
        ensures
            match r {
                Some(b) => button_bit(b) == bits,
                None => forall|b: ControllerButton| button_bit(b) != bits,
            },
    {
        if bits == 1u32 << 0u32 {
            return Some(ControllerButton::Share);
        }
        if bits == 1u32 << 1u32 {
            return Some(ControllerButton::L3);
        }
        if bits == 1u32 << 2u32 {
            return Some(ControllerButton::R3);
        }
        if bits == 1u32 << 3u32 {
            return Some(ControllerButton::Options);
        }
        if bits == 1u32 << 4u32 {
            return Some(ControllerButton::Up);
        }
        if bits == 1u32 << 5u32 {
            return Some(ControllerButton::Right);
        }
        if bits == 1u32 << 6u32 {
            return Some(ControllerButton::Down);
        }
        if bits == 1u32 << 7u32 {
            return Some(ControllerButton::Left);
        }
        if bits == 1u32 << 8u32 {
            return Some(ControllerButton::L1);
        }
        if bits == 1u32 << 9u32 {
            return Some(ControllerButton::R1);
        }
        if bits == 1u32 << 10u32 {
            return Some(ControllerButton::L2);
        }
        if bits == 1u32 << 11u32 {
            return Some(ControllerButton::R2);
        }
        if bits == 1u32 << 12u32 {
            return Some(ControllerButton::Triangle);
        }
        if bits == 1u32 << 13u32 {
            return Some(ControllerButton::Circle);
        }
        if bits == 1u32 << 14u32 {
            return Some(ControllerButton::Cross);
        }
        if bits == 1u32 << 15u32 {
            return Some(ControllerButton::Square);
        }
        if bits == 1u32 << 16u32 {
            return Some(ControllerButton::LsUp);
        }
        if bits == 1u32 << 17u32 {
            return Some(ControllerButton::LsRight);
        }
        if bits == 1u32 << 18u32 {
            return Some(ControllerButton::LsDown);
        }
        if bits == 1u32 << 19u32 {
            return Some(ControllerButton::LsLeft);
        }
        if bits == 1u32 << 20u32 {
            return Some(ControllerButton::RsUp);
        }
        if bits == 1u32 << 21u32 {
            return Some(ControllerButton::RsRight);
        }
        if bits == 1u32 << 22u32 {
            return Some(ControllerButton::RsDown);
        }
        if bits == 1u32 << 23u32 {
            return Some(ControllerButton::RsLeft);
        }
        proof {
            assert forall|b: ControllerButton| button_bit(b) != bits by {
                match b {
                    ControllerButton::Share => {},
                    ControllerButton::L3 => {},
                    ControllerButton::R3 => {},
                    ControllerButton::Options => {},
                    ControllerButton::Up => {},
                    ControllerButton::Right => {},
                    ControllerButton::Down => {},
                    ControllerButton::Left => {},
                    ControllerButton::L1 => {},
                    ControllerButton::R1 => {},
                    ControllerButton::L2 => {},
                    ControllerButton::R2 => {},
                    ControllerButton::Triangle => {},
                    ControllerButton::Circle => {},
                    ControllerButton::Cross => {},
                    ControllerButton::Square => {},
                    ControllerButton::LsUp => {},
                    ControllerButton::LsRight => {},
                    ControllerButton::LsDown => {},
                    ControllerButton::LsLeft => {},
                    ControllerButton::RsUp => {},
                    ControllerButton::RsRight => {},
                    ControllerButton::RsDown => {},
                    ControllerButton::RsLeft => {},
                }
            }
        }
        None
    }
}

/// A keyboard key, by its scan code.
#[derive(Clone, Copy, Debug, PartialEq, Eq, Structural, Hash)]
pub enum KeyCode {
    Escape,
    D1,
    D2,
    D3,
    D4,
    D5,
    D6,
    D7,
    D8,
    D9,
    D0,
    Minus,
    Equals,
    BackSpace,
    Tab,
    Q,
    W,
    E,
    R,
    T,
    Y,
    U,
    I,
    O,
    P,
    LeftBracket,
    RightBracket,
    Enter,
    LeftControl,
    A,
    S,
    D,
    F,
    G,
    H,
    J,
    K,
    L,
    SemiColon,
    Apostrophe,
    Grave,
    LeftShift,
    BackSlash,
    Z,
    X,
    C,
    V,
    B,
    N,
    M,
    Comma,
    Period,
    Slash,
    RightShift,
    Multiply,
    LeftAlt,
    Space,
    CapsLock,
    F1,
    F2,
    F3,
    F4,
    F5,
    F6,
    F7,
    F8,
    F9,
    F10,
    Numlock,
    Scroll,
    NumPad7,
    NumPad8,
    NumPad9,
    NumPadMinus,
    NumPad4,
    NumPad5,
    NumPad6,
    NumPadPlus,
    NumPad1,
    NumPad2,
    NumPad3,
    NumPad0,
    NumPadPeriod,
    Oem102,
    F11,
    F12,
    F13,
    F14,
    F15,
    Kana,
    AbntC1,
    Convert,
    NoConvert,
    Yen,
    AbntC2,
    NumPadEquals,
    Circumflex,
    At,
    Colon,
    Underline,
    Kanji,
    Stop,
    Ax,
    Unlabeled,
    NextTrack,
    NumPadEnter,
    RightControl,
    Mute,
    Calculator,
    PlayPause,
    MediaStop,
    VolumeDown,
    VolumeUp,
    WebHome,
    NumPadComma,
    NumPadSlash,
    SysRq,
    RightAlt,
    Pause,
    Home,
    Up,
    PageUp,
    Left,
    Right,
    End,
    Down,
    PageDown,
    Insert,
    Delete,
    LeftWindows,
    RightWindows,
    Apps,
    Power,
    Sleep,
    Wake,
    WebSearch,
    WebFavorites,
    WebRefresh,
    WebStop,
    WebForward,
    WebBack,
    MyComputer,
    Mail,
    MediaSelect,
}

/// The scan code of a key.
pub open spec fn key_code(k: KeyCode) -> u32 {
    match k {
        KeyCode::Escape => 1,
        KeyCode::D1 => 2,
        KeyCode::D2 => 3,
        KeyCode::D3 => 4,
        KeyCode::D4 => 5,
        KeyCode::D5 => 6,
        KeyCode::D6 => 7,
        KeyCode::D7 => 8,
        KeyCode::D8 => 9,
        KeyCode::D9 => 10,
        KeyCode::D0 => 11,
        KeyCode::Minus => 12,
        KeyCode::Equals => 13,
        KeyCode::BackSpace => 14,
        KeyCode::Tab => 15,
        KeyCode::Q => 16,
        KeyCode::W => 17,
        KeyCode::E => 18,
        KeyCode::R => 19,
        KeyCode::T => 20,
        KeyCode::Y => 21,
        KeyCode::U => 22,
        KeyCode::I => 23,
        KeyCode::O => 24,
        KeyCode::P => 25,
        KeyCode::LeftBracket => 26,
        KeyCode::RightBracket => 27,
        KeyCode::Enter => 28,
        KeyCode::LeftControl => 29,
        KeyCode::A => 30,
        KeyCode::S => 31,
        KeyCode::D => 32,
        KeyCode::F => 33,
        KeyCode::G => 34,
        KeyCode::H => 35,
        KeyCode::J => 36,
        KeyCode::K => 37,
        KeyCode::L => 38,
        KeyCode::SemiColon => 39,
        KeyCode::Apostrophe => 40,
        KeyCode::Grave => 41,
        KeyCode::LeftShift => 42,
        KeyCode::BackSlash => 43,
        KeyCode::Z => 44,
        KeyCode::X => 45,
        KeyCode::C => 46,
        KeyCode::V => 47,
        KeyCode::B => 48,
        KeyCode::N => 49,
        KeyCode::M => 50,
        KeyCode::Comma => 51,
        KeyCode::Period => 52,
        KeyCode::Slash => 53,
        KeyCode::RightShift => 54,
        KeyCode::Multiply => 55,
        KeyCode::LeftAlt => 56,
        KeyCode::Space => 57,
        KeyCode::CapsLock => 58,
        KeyCode::F1 => 59,
        KeyCode::F2 => 60,
        KeyCode::F3 => 61,
        KeyCode::F4 => 62,
        KeyCode::F5 => 63,
        KeyCode::F6 => 64,
        KeyCode::F7 => 65,
        KeyCode::F8 => 66,
        KeyCode::F9 => 67,
        KeyCode::F10 => 68,
        KeyCode::Numlock => 69,
        KeyCode::Scroll => 70,
        KeyCode::NumPad7 => 71,
        KeyCode::NumPad8 => 72,
        KeyCode::NumPad9 => 73,
        KeyCode::NumPadMinus => 74,
        KeyCode::NumPad4 => 75,
        KeyCode::NumPad5 => 76,
        KeyCode::NumPad6 => 77,
        KeyCode::NumPadPlus => 78,
        KeyCode::NumPad1 => 79,
        KeyCode::NumPad2 => 80,
        KeyCode::NumPad3 => 81,
        KeyCode::NumPad0 => 82,
        KeyCode::NumPadPeriod => 83,
        KeyCode::Oem102 => 86,
        KeyCode::F11 => 87,
        KeyCode::F12 => 88,
        KeyCode::F13 => 100,
        KeyCode::F14 => 101,
        KeyCode::F15 => 102,
        KeyCode::Kana => 112,
        KeyCode::AbntC1 => 115,
        KeyCode::Convert => 121,
        KeyCode::NoConvert => 123,
        KeyCode::Yen => 125,
        KeyCode::AbntC2 => 126,
        KeyCode::NumPadEquals => 141,
        KeyCode::Circumflex => 144,
        KeyCode::At => 145,
        KeyCode::Colon => 146,
        KeyCode::Underline => 147,
        KeyCode::Kanji => 148,
        KeyCode::Stop => 149,
        KeyCode::Ax => 150,
        KeyCode::Unlabeled => 151,
        KeyCode::NextTrack => 153,
        KeyCode::NumPadEnter => 156,
        KeyCode::RightControl => 157,
        KeyCode::Mute => 160,
        KeyCode::Calculator => 161,
        KeyCode::PlayPause => 162,
        KeyCode::MediaStop => 164,
        KeyCode::VolumeDown => 174,
        KeyCode::VolumeUp => 176,
        KeyCode::WebHome => 178,
        KeyCode::NumPadComma => 179,
        KeyCode::NumPadSlash => 181,
        KeyCode::SysRq => 183,
        KeyCode::RightAlt => 184,
        KeyCode::Pause => 197,
        KeyCode::Home => 199,
        KeyCode::Up => 200,
        KeyCode::PageUp => 201,
        KeyCode::Left => 203,
        KeyCode::Right => 205,
        KeyCode::End => 207,
        KeyCode::Down => 208,
        KeyCode::PageDown => 209,
        KeyCode::Insert => 210,
        KeyCode::Delete => 211,
        KeyCode::LeftWindows => 219,
        KeyCode::RightWindows => 220,
        KeyCode::Apps => 221,
        KeyCode::Power => 222,
        KeyCode::Sleep => 223,
        KeyCode::Wake => 227,
        KeyCode::WebSearch => 229,
        KeyCode::WebFavorites => 230,
        KeyCode::WebRefresh => 231,
        KeyCode::WebStop => 232,
        KeyCode::WebForward => 233,
        KeyCode::WebBack => 234,
        KeyCode::MyComputer => 235,
        KeyCode::Mail => 236,
        KeyCode::MediaSelect => 237,
    }
}

impl KeyCode {
    /// The scan code of the key.
    pub fn code(self) -> (r: u32)
        ensures
            r == key_code(self),
    {
        match self {
            KeyCode::Escape => 1,
            KeyCode::D1 => 2,
            KeyCode::D2 => 3,
            KeyCode::D3 => 4,
            KeyCode::D4 => 5,
            KeyCode::D5 => 6,
            KeyCode::D6 => 7,
            KeyCode::D7 => 8,
            KeyCode::D8 => 9,
            KeyCode::D9 => 10,
            KeyCode::D0 => 11,
            KeyCode::Minus => 12,
            KeyCode::Equals => 13,
            KeyCode::BackSpace => 14,
            KeyCode::Tab => 15,
            KeyCode::Q => 16,
            KeyCode::W => 17,
            KeyCode::E => 18,
            KeyCode::R => 19,
            KeyCode::T => 20,
            KeyCode::Y => 21,
            KeyCode::U => 22,
            KeyCode::I => 23,
            KeyCode::O => 24,
            KeyCode::P => 25,
            KeyCode::LeftBracket => 26,
            KeyCode::RightBracket => 27,
            KeyCode::Enter => 28,
            KeyCode::LeftControl => 29,
            KeyCode::A => 30,
            KeyCode::S => 31,
            KeyCode::D => 32,
            KeyCode::F => 33,
            KeyCode::G => 34,
            KeyCode::H => 35,
            KeyCode::J => 36,
            KeyCode::K => 37,
            KeyCode::L => 38,
            KeyCode::SemiColon => 39,
            KeyCode::Apostrophe => 40,
            KeyCode::Grave => 41,
            KeyCode::LeftShift => 42,
            KeyCode::BackSlash => 43,
            KeyCode::Z => 44,
            KeyCode::X => 45,
            KeyCode::C => 46,
            KeyCode::V => 47,
            KeyCode::B => 48,
            KeyCode::N => 49,
            KeyCode::M => 50,
            KeyCode::Comma => 51,
            KeyCode::Period => 52,
            KeyCode::Slash => 53,
            KeyCode::RightShift => 54,
            KeyCode::Multiply => 55,
            KeyCode::LeftAlt => 56,
            KeyCode::Space => 57,
            KeyCode::CapsLock => 58,
            KeyCode::F1 => 59,
            KeyCode::F2 => 60,
            KeyCode::F3 => 61,
            KeyCode::F4 => 62,
            KeyCode::F5 => 63,
            KeyCode::F6 => 64,
            KeyCode::F7 => 65,
            KeyCode::F8 => 66,
            KeyCode::F9 => 67,
            KeyCode::F10 => 68,
            KeyCode::Numlock => 69,
            KeyCode::Scroll => 70,
            KeyCode::NumPad7 => 71,
            KeyCode::NumPad8 => 72,
            KeyCode::NumPad9 => 73,
            KeyCode::NumPadMinus => 74,
            KeyCode::NumPad4 => 75,
            KeyCode::NumPad5 => 76,
            KeyCode::NumPad6 => 77,
            KeyCode::NumPadPlus => 78,
            KeyCode::NumPad1 => 79,
            KeyCode::NumPad2 => 80,
            KeyCode::NumPad3 => 81,
            KeyCode::NumPad0 => 82,
            KeyCode::NumPadPeriod => 83,
            KeyCode::Oem102 => 86,
            KeyCode::F11 => 87,
            KeyCode::F12 => 88,
            KeyCode::F13 => 100,
            KeyCode::F14 => 101,
            KeyCode::F15 => 102,
            KeyCode::Kana => 112,
            KeyCode::AbntC1 => 115,
            KeyCode::Convert => 121,
            KeyCode::NoConvert => 123,
            KeyCode::Yen => 125,
            KeyCode::AbntC2 => 126,
            KeyCode::NumPadEquals => 141,
            KeyCode::Circumflex => 144,
            KeyCode::At => 145,
            KeyCode::Colon => 146,
            KeyCode::Underline => 147,
            KeyCode::Kanji => 148,
            KeyCode::Stop => 149,
            KeyCode::Ax => 150,
            KeyCode::Unlabeled => 151,
            KeyCode::NextTrack => 153,
            KeyCode::NumPadEnter => 156,
            KeyCode::RightControl => 157,
            KeyCode::Mute => 160,
            KeyCode::Calculator => 161,
            KeyCode::PlayPause => 162,
            KeyCode::MediaStop => 164,
            KeyCode::VolumeDown => 174,
            KeyCode::VolumeUp => 176,
            KeyCode::WebHome => 178,
            KeyCode::NumPadComma => 179,
            KeyCode::NumPadSlash => 181,
            KeyCode::SysRq => 183,
            KeyCode::RightAlt => 184,
            KeyCode::Pause => 197,
            KeyCode::Home => 199,
            KeyCode::Up => 200,
            KeyCode::PageUp => 201,
            KeyCode::Left => 203,
            KeyCode::Right => 205,
            KeyCode::End => 207,
            KeyCode::Down => 208,
            KeyCode::PageDown => 209,
            KeyCode::Insert => 210,
            KeyCode::Delete => 211,
            KeyCode::LeftWindows => 219,
            KeyCode::RightWindows => 220,
            KeyCode::Apps => 221,
            KeyCode::Power => 222,
            KeyCode::Sleep => 223,
            KeyCode::Wake => 227,
            KeyCode::WebSearch => 229,
            KeyCode::WebFavorites => 230,
            KeyCode::WebRefresh => 231,
            KeyCode::WebStop => 232,
            KeyCode::WebForward => 233,
            KeyCode::WebBack => 234,
            KeyCode::MyComputer => 235,
            KeyCode::Mail => 236,
            KeyCode::MediaSelect => 237,
        }
    }

    /// The key whose scan code is `code`.
    pub fn from_repr(code: u32) -> (r: Option<KeyCode>)
        ensures
            match r {
                Some(k) => key_code(k) == code,
                None => forall|k: KeyCode| key_code(k) != code,
            },
    {
        match code {
            1 => Some(KeyCode::Escape),
            2 => Some(KeyCode::D1),
            3 => Some(KeyCode::D2),
            4 => Some(KeyCode::D3),
            5 => Some(KeyCode::D4),
            6 => Some(KeyCode::D5),
            7 => Some(KeyCode::D6),
            8 => Some(KeyCode::D7),
            9 => Some(KeyCode::D8),
            10 => Some(KeyCode::D9),
            11 => Some(KeyCode::D0),
            12 => Some(KeyCode::Minus),
            13 => Some(KeyCode::Equals),
            14 => Some(KeyCode::BackSpace),
            15 => Some(KeyCode::Tab),
            16 => Some(KeyCode::Q),
            17 => Some(KeyCode::W),
            18 => Some(KeyCode::E),
            19 => Some(KeyCode::R),
            20 => Some(KeyCode::T),
            21 => Some(KeyCode::Y),
            22 => Some(KeyCode::U),
            23 => Some(KeyCode::I),
            24 => Some(KeyCode::O),
            25 => Some(KeyCode::P),
            26 => Some(KeyCode::LeftBracket),
            27 => Some(KeyCode::RightBracket),
            28 => Some(KeyCode::Enter),
            29 => Some(KeyCode::LeftControl),
            30 => Some(KeyCode::A),
            31 => Some(KeyCode::S),
            32 => Some(KeyCode::D),
            33 => Some(KeyCode::F),
            34 => Some(KeyCode::G),
            35 => Some(KeyCode::H),
            36 => Some(KeyCode::J),
            37 => Some(KeyCode::K),
            38 => Some(KeyCode::L),
            39 => Some(KeyCode::SemiColon),
            40 => Some(KeyCode::Apostrophe),
            41 => Some(KeyCode::Grave),
            42 => Some(KeyCode::LeftShift),
            43 => Some(KeyCode::BackSlash),
            44 => Some(KeyCode::Z),
            45 => Some(KeyCode::X),
            46 => Some(KeyCode::C),
            47 => Some(KeyCode::V),
            48 => Some(KeyCode::B),
            49 => Some(KeyCode::N),
            50 => Some(KeyCode::M),
            51 => Some(KeyCode::Comma),
            52 => Some(KeyCode::Period),
            53 => Some(KeyCode::Slash),
            54 => Some(KeyCode::RightShift),
            55 => Some(KeyCode::Multiply),
            56 => Some(KeyCode::LeftAlt),
            57 => Some(KeyCode::Space),
            58 => Some(KeyCode::CapsLock),
            59 => Some(KeyCode::F1),
            60 => Some(KeyCode::F2),
            61 => Some(KeyCode::F3),
            62 => Some(KeyCode::F4),
            63 => Some(KeyCode::F5),
            64 => Some(KeyCode::F6),
            65 => Some(KeyCode::F7),
            66 => Some(KeyCode::F8),
            67 => Some(KeyCode::F9),
            68 => Some(KeyCode::F10),
            69 => Some(KeyCode::Numlock),
            70 => Some(KeyCode::Scroll),
            71 => Some(KeyCode::NumPad7),
            72 => Some(KeyCode::NumPad8),
            73 => Some(KeyCode::NumPad9),
            74 => Some(KeyCode::NumPadMinus),
            75 => Some(KeyCode::NumPad4),
            76 => Some(KeyCode::NumPad5),
            77 => Some(KeyCode::NumPad6),
            78 => Some(KeyCode::NumPadPlus),
            79 => Some(KeyCode::NumPad1),
            80 => Some(KeyCode::NumPad2),
            81 => Some(KeyCode::NumPad3),
            82 => Some(KeyCode::NumPad0),
            83 => Some(KeyCode::NumPadPeriod),
            86 => Some(KeyCode::Oem102),
            87 => Some(KeyCode::F11),
            88 => Some(KeyCode::F12),
            100 => Some(KeyCode::F13),
            101 => Some(KeyCode::F14),
            102 => Some(KeyCode::F15),
            112 => Some(KeyCode::Kana),
            115 => Some(KeyCode::AbntC1),
            121 => Some(KeyCode::Convert),
            123 => Some(KeyCode::NoConvert),
            125 => Some(KeyCode::Yen),
            126 => Some(KeyCode::AbntC2),
            141 => Some(KeyCode::NumPadEquals),
            144 => Some(KeyCode::Circumflex),
            145 => Some(KeyCode::At),
            146 => Some(KeyCode::Colon),
            147 => Some(KeyCode::Underline),
            148 => Some(KeyCode::Kanji),
            149 => Some(KeyCode::Stop),
            150 => Some(KeyCode::Ax),
            151 => Some(KeyCode::Unlabeled),
            153 => Some(KeyCode::NextTrack),
            156 => Some(KeyCode::NumPadEnter),
            157 => Some(KeyCode::RightControl),
            160 => Some(KeyCode::Mute),
            161 => Some(KeyCode::Calculator),
            162 => Some(KeyCode::PlayPause),
            164 => Some(KeyCode::MediaStop),
            174 => Some(KeyCode::VolumeDown),
            176 => Some(KeyCode::VolumeUp),
            178 => Some(KeyCode::WebHome),
            179 => Some(KeyCode::NumPadComma),
            181 => Some(KeyCode::NumPadSlash),
            183 => Some(KeyCode::SysRq),
            184 => Some(KeyCode::RightAlt),
            197 => Some(KeyCode::Pause),
            199 => Some(KeyCode::Home),
            200 => Some(KeyCode::Up),
            201 => Some(KeyCode::PageUp),
            203 => Some(KeyCode::Left),
            205 => Some(KeyCode::Right),
            207 => Some(KeyCode::End),
            208 => Some(KeyCode::Down),
            209 => Some(KeyCode::PageDown),
            210 => Some(KeyCode::Insert),
            211 => Some(KeyCode::Delete),
            219 => Some(KeyCode::LeftWindows),
            220 => Some(KeyCode::RightWindows),
            221 => Some(KeyCode::Apps),
            222 => Some(KeyCode::Power),
            223 => Some(KeyCode::Sleep),
            227 => Some(KeyCode::Wake),
            229 => Some(KeyCode::WebSearch),
            230 => Some(KeyCode::WebFavorites),
            231 => Some(KeyCode::WebRefresh),
            232 => Some(KeyCode::WebStop),
            233 => Some(KeyCode::WebForward),
            234 => Some(KeyCode::WebBack),
            235 => Some(KeyCode::MyComputer),
            236 => Some(KeyCode::Mail),
            237 => Some(KeyCode::MediaSelect),
            _ => None,
        }
    }
}

/// Whether bit `vk` is set in the 256-bit set held by `words`.
pub open spec fn key_bit(words: Seq<u32>, vk: u8) -> bool {
    words[(vk / 32) as int] & (1u32 << ((vk % 32) as u32)) != 0
}

fn test_key_bit(words: &[u32; 8], vk: u8) -> (r: bool)
    ensures
        r == key_bit(words@, vk),
{
    let w = words[(vk / 32) as usize];
    w & (1u32 << ((vk % 32) as u32)) != 0
}

/// The keyboard singleton's state words: keys held, held before, pressed,
/// released, changed, repeating.
#[derive(Clone, Copy, Debug, PartialEq, Eq)]
pub struct KeyboardState {
    pub on: [u32; 8],
    pub old: [u32; 8],
    pub trg: [u32; 8],
    pub rel: [u32; 8],
    pub chg: [u32; 8],
    pub repeat: [u32; 8],
}

impl KeyboardState {
    /// A state with no key held.
    pub fn zeroed() -> (r: KeyboardState)
        ensures
            forall|i: int| 0 <= i < 8 ==> r.on@[i] == 0 && r.trg@[i] == 0 && r.rel@[i] == 0
                && r.chg@[i] == 0,
    {
        let z: [u32; 8] = [0, 0, 0, 0, 0, 0, 0, 0];
        KeyboardState { on: z, old: z, trg: z, rel: z, chg: z, repeat: z }
    }
}

/// A snapshot of the input state that the host exposes to extensions: the
/// keyboard words, the table from scan code to virtual key, and the
/// controller words (held, pressed, released, changed).
#[derive(Clone, Debug)]
pub struct CoreAPIInput {
    pub keyboard: KeyboardState,
    pub vk_table: Vec<u8>,
    pub pad_down: u32,
    pub pad_trg: u32,
    pub pad_rel: u32,
    pub pad_chg: u32,
}

/// Whether `key` is set in `words`, looked up through `vk_table`; a key
/// without a table entry is never set.
pub open spec fn key_state(vk_table: Seq<u8>, words: Seq<u32>, key: KeyCode) -> bool {
    key_code(key) < vk_table.len() && key_bit(words, vk_table[key_code(key) as int])
}

/// The input queries of an extension.
pub struct Input<'a>(pub &'a CoreAPIInput);

impl<'a> Input<'a> {
    pub fn keyboard(&self) -> (r: InputKeyboard<'a>)
        ensures
            r.0 == self.0,
    {
        InputKeyboard(self.0)
    }

    pub fn controller(&self) -> (r: InputController<'a>)
        ensures
            r.0 == self.0,
    {
        InputController(self.0)
    }
}

/// Keyboard queries.
pub struct InputKeyboard<'a>(pub &'a CoreAPIInput);

impl<'a> InputKeyboard<'a> {
    fn query(&self, words: &[u32; 8], key: KeyCode) -> (r: bool)
        ensures
            r == key_state(self.0.vk_table@, words@, key),
    {
        let code = key.code() as usize;
        if code >= self.0.vk_table.len() {
            return false;
        }
        test_key_bit(words, self.0.vk_table[code])
    }

    /// Whether `key` went down in this frame.
    pub fn is_pressed(&self, key: KeyCode) -> (r: bool)
        ensures
            r == key_state(self.0.vk_table@, self.0.keyboard.trg@, key),
    {
        self.query(&self.0.keyboard.trg, key)
    }

    /// Whether `key` is held.
    pub fn is_down(&self, key: KeyCode) -> (r: bool)
        ensures
            r == key_state(self.0.vk_table@, self.0.keyboard.on@, key),
    {
        self.query(&self.0.keyboard.on, key)
    }

    /// Whether `key` went up in this frame.
    pub fn is_released(&self, key: KeyCode) -> (r: bool)
        ensures
            r == key_state(self.0.vk_table@, self.0.keyboard.rel@, key),
    {
        self.query(&self.0.keyboard.rel, key)
    }

    /// Whether `key` changed in this frame.
    pub fn is_changed(&self, key: KeyCode) -> (r: bool)
        ensures
            r == key_state(self.0.vk_table@, self.0.keyboard.chg@, key),
    {
        self.query(&self.0.keyboard.chg, key)
    }
}

/// Controller queries.
pub struct InputController<'a>(pub &'a CoreAPIInput);

impl<'a> InputController<'a> {
    /// Whether `button` went down in this frame.
    pub fn is_pressed(&self, button: ControllerButton) -> (r: bool)
        ensures
            r == (self.0.pad_trg & button_bit(button) != 0),
    {
        self.0.pad_trg & button.bit() != 0
    }

    /// Whether `button` is held.
    pub fn is_down(&self, button: ControllerButton) -> (r: bool)
        ensures
            r == (self.0.pad_down & button_bit(button) != 0),
    {
        self.0.pad_down & button.bit() != 0
    }

    /// Whether `button` went up in this frame.
    pub fn is_released(&self, button: ControllerButton) -> (r: bool)
        ensures
            r == (self.0.pad_rel & button_bit(button) != 0),
    {
        self.0.pad_rel & button.bit() != 0
    }

    /// Whether `button` changed in this frame.
    pub fn is_changed(&self, button: ControllerButton) -> (r: bool)
        ensures
            r == (self.0.pad_chg & button_bit(button) != 0),
    {
        self.0.pad_chg & button.bit() != 0
    }
}

} // verus!
