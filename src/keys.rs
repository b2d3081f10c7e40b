use vstd::prelude::*;

verus! {

/// One symbol of the directional alphabet.
///
/// Combos that control the application conventionally start with `Mark`;
/// combos that play audio do not. The tree does not enforce this.
#[derive(Copy, Clone, Debug, PartialEq, Eq, Hash, Structural)]
pub enum KeyInput {
    /// `/` special input [Slash or KP_Divide]
    Mark,
    /// `↑` up input [Up Arrow or KP_8]
    Up,
    /// `↓` down input [Down Arrow or KP_2]
    Down,
    /// `←` left input [Left Arrow or KP_4]
    Left,
    /// `→` right input [Right Arrow or KP_6]
    Right,
}

/// The stable ordinal of a symbol, in `0..5`.
pub open spec fn ordinal(k: KeyInput) -> nat {
    match k {
        KeyInput::Mark => 0,
        KeyInput::Up => 1,
        KeyInput::Down => 2,
        KeyInput::Left => 3,
        KeyInput::Right => 4,
    }
}

impl KeyInput {
    /// The stable ordinal of this symbol, used to index per-symbol slots.
    pub fn index(self) -> (r: usize)
        ensures
            r as nat == ordinal(self),
            r < 5,
    {
        match self {
            KeyInput::Mark => 0,
            KeyInput::Up => 1,
            KeyInput::Down => 2,
            KeyInput::Left => 3,
            KeyInput::Right => 4,
        }
    }
}

/// A physical key, as far as the combo alphabet is concerned.
#[derive(Copy, Clone, Debug, PartialEq, Eq, Hash, Structural)]
pub enum RawKey {
    UpArrow,
    Kp8,
    DownArrow,
    Kp2,
    LeftArrow,
    Kp4,
    RightArrow,
    Kp6,
    Slash,
    KpDivide,
    Return,
    KpReturn,
    /// Any other key.
    Other,
}

/// What a key press means to the recognizer.
#[derive(Copy, Clone, Debug, PartialEq, Eq, Hash, Structural)]
pub enum KeyEvent {
    /// A symbol of the alphabet, to be recorded.
    Symbol(KeyInput),
    /// The end of a combo; never itself recorded.
    Terminator,
    /// A key that plays no part in combos.
    Ignored,
}

/// The translation table: arrow keys and their keypad equivalents give the
/// same symbol, slash and keypad divide give `Mark`, and both return keys
/// end a combo.
pub open spec fn key_event(key: RawKey) -> KeyEvent {
    match key {
        RawKey::UpArrow | RawKey::Kp8 => KeyEvent::Symbol(KeyInput::Up),
        RawKey::DownArrow | RawKey::Kp2 => KeyEvent::Symbol(KeyInput::Down),
        RawKey::LeftArrow | RawKey::Kp4 => KeyEvent::Symbol(KeyInput::Left),
        RawKey::RightArrow | RawKey::Kp6 => KeyEvent::Symbol(KeyInput::Right),
        RawKey::Slash | RawKey::KpDivide => KeyEvent::Symbol(KeyInput::Mark),
        RawKey::Return | RawKey::KpReturn => KeyEvent::Terminator,
        RawKey::Other => KeyEvent::Ignored,
    }
}

/// Translates a key press by the table of [`key_event`].
pub fn classify(key: RawKey) -> (r: KeyEvent)
    ensures
        r == key_event(key),
{
    match key {
        RawKey::UpArrow | RawKey::Kp8 => KeyEvent::Symbol(KeyInput::Up),
        RawKey::DownArrow | RawKey::Kp2 => KeyEvent::Symbol(KeyInput::Down),
        RawKey::LeftArrow | RawKey::Kp4 => KeyEvent::Symbol(KeyInput::Left),
        RawKey::RightArrow | RawKey::Kp6 => KeyEvent::Symbol(KeyInput::Right),
        RawKey::Slash | RawKey::KpDivide => KeyEvent::Symbol(KeyInput::Mark),
        RawKey::Return | RawKey::KpReturn => KeyEvent::Terminator,
        RawKey::Other => KeyEvent::Ignored,
    }
}

} // verus!
