use vstd::prelude::*;

verus! {

/// Simplified, cross-platform key abstraction over terminal input events.
#[derive(Debug, Clone, Copy, PartialEq, Eq, Structural)]
pub enum Key {
    Char(char),
    Up,
    Down,
    Left,
    Right,
    PageUp,
    PageDown,
    Home,
    End,
    Enter,
    Escape,
    Backspace,
    Delete,
    Tab,
    BackTab,
    F(u8),
    Ctrl(char),
    Alt(char),
    Resize(u16, u16),
    Unknown,
}

} // verus!

verus! {

/// A key as the terminal reports it, before translation.  Keys that the
/// library does not tell apart are `Other`.
#[derive(Debug, Clone, Copy, PartialEq, Eq, Structural)]
pub enum RawKey {
    Char(char),
    Up,
    Down,
    Left,
    Right,
    PageUp,
    PageDown,
    Home,
    End,
    Enter,
    Esc,
    Backspace,
    Delete,
    Tab,
    BackTab,
    F(u8),
    Other,
}

/// A terminal input event as the library reads it.
#[derive(Debug, Clone, Copy, PartialEq, Eq, Structural)]
pub enum InputEvent {
    /// A key event: the key, whether Control and Alt were held, and whether
    /// it is a press (not a release or a repeat).
    Key { code: RawKey, ctrl: bool, alt: bool, press: bool },
    /// The terminal was resized to `cols × rows`.
    Resize(u16, u16),
    /// Any other event (mouse, focus, paste).
    Other,
}

/// The key a raw key stands for: a character with Control held is `Ctrl`,
/// else with Alt held `Alt`; other keys ignore the modifiers.
pub open spec fn translate_key_spec(code: RawKey, ctrl: bool, alt: bool) -> Key {
    match code {
        RawKey::Char(c) => if ctrl { Key::Ctrl(c) } else if alt { Key::Alt(c) } else { Key::Char(c) },
        RawKey::Up => Key::Up,
        RawKey::Down => Key::Down,
        RawKey::Left => Key::Left,
        RawKey::Right => Key::Right,
        RawKey::PageUp => Key::PageUp,
        RawKey::PageDown => Key::PageDown,
        RawKey::Home => Key::Home,
        RawKey::End => Key::End,
        RawKey::Enter => Key::Enter,
        RawKey::Esc => Key::Escape,
        RawKey::Backspace => Key::Backspace,
        RawKey::Delete => Key::Delete,
        RawKey::Tab => Key::Tab,
        RawKey::BackTab => Key::BackTab,
        RawKey::F(n) => Key::F(n),
        RawKey::Other => Key::Unknown,
    }
}

/// The key an event stands for: key presses and resizes; anything else
/// (releases, mouse, focus) is no key.
pub open spec fn translate_spec(ev: InputEvent) -> Option<Key> {
    match ev {
        InputEvent::Key { code, ctrl, alt, press } => if press { Some(translate_key_spec(code, ctrl, alt)) } else { None },
        InputEvent::Resize(cols, rows) => Some(Key::Resize(cols, rows)),
        InputEvent::Other => None,
    }
}

/// The key an input event stands for, if any.
pub fn translate(ev: InputEvent) -> (k: Option<Key>)
    ensures
        k == translate_spec(ev),
{
    match ev {
        InputEvent::Key { code, ctrl, alt, press } => {
            if press {
                Some(translate_key(code, ctrl, alt))
            } else {
                None
            }
        },
        InputEvent::Resize(cols, rows) => Some(Key::Resize(cols, rows)),
        InputEvent::Other => None,
    }
}

/// The key a raw key stands for, given the modifiers held.
pub fn translate_key(code: RawKey, ctrl: bool, alt: bool) -> (k: Key)
    ensures
        k == translate_key_spec(code, ctrl, alt),
{
    match code {
        RawKey::Char(c) => {
            if ctrl {
                Key::Ctrl(c)
            } else if alt {
                Key::Alt(c)
            } else {
                Key::Char(c)
            }
        },
        RawKey::Up => Key::Up,
        RawKey::Down => Key::Down,
        RawKey::Left => Key::Left,
        RawKey::Right => Key::Right,
        RawKey::PageUp => Key::PageUp,
        RawKey::PageDown => Key::PageDown,
        RawKey::Home => Key::Home,
        RawKey::End => Key::End,
        RawKey::Enter => Key::Enter,
        RawKey::Esc => Key::Escape,
        RawKey::Backspace => Key::Backspace,
        RawKey::Delete => Key::Delete,
        RawKey::Tab => Key::Tab,
        RawKey::BackTab => Key::BackTab,
        RawKey::F(n) => Key::F(n),
        RawKey::Other => Key::Unknown,
    }
}

} // verus!
