use vstd::prelude::*;

verus! {

/// A keystroke.
#[derive(Clone, Copy, Debug, PartialEq, Eq, Structural)]
pub enum KeyEvent {
    Char(char),
}

/// A source of keystrokes: a raw terminal, or a kernel input device.
pub trait KeyboardInput {
    /// The next keystroke, or `None` when the source has none to give.
    fn next_key_event(&mut self) -> Option<KeyEvent>;
}

/// The keystroke of one byte of a raw terminal stream: the character with
/// that code point.
pub fn key_from_byte(b: u8) -> (r: KeyEvent)
    ensures
        r == KeyEvent::Char(b as char),
{
    KeyEvent::Char(b as char)
}

} // verus!
