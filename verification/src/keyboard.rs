//! The keyboard model of a text input: the keys the engine tells apart, the
//! character each one types, and the reducer that applies a key to a text
//! buffer.

use vstd::prelude::*;
use crate::strings::{string_pop, string_push};

verus! {

/// The keys the engine distinguishes.  Every other key is `Other`.
#[derive(Debug, Clone, Copy, PartialEq, Eq, Structural)]
pub enum Key {
    A, B, C, D, E, F, G, H, I, J, K, L, M,
    N, O, P, Q, R, S, T, U, V, W, X, Y, Z,
    Zero, One, Two, Three, Four, Five, Six, Seven, Eight, Nine,
    Space,
    Enter,
    Comma,
    Period,
    Apostrophe,
    Semicolon,
    Slash,
    Backslash,
    LeftBracket,
    RightBracket,
    Minus,
    Equal,
    Grave,
    Backspace,
    Other,
}

/// The keyboard state of one frame.
#[derive(Clone, Copy, Debug)]
pub struct KeyEvent {
    pub key: Option<Key>,
    pub shift_down: bool,
    pub ctrl_down: bool,
}

/// The character a key types without a modifier, if it types one.
pub open spec fn key_char(key: Key) -> Option<char> {
    match key {
        Key::A => Some('a'),
        Key::B => Some('b'),
        Key::C => Some('c'),
        Key::D => Some('d'),
        Key::E => Some('e'),
        Key::F => Some('f'),
        Key::G => Some('g'),
        Key::H => Some('h'),
        Key::I => Some('i'),
        Key::J => Some('j'),
        Key::K => Some('k'),
        Key::L => Some('l'),
        Key::M => Some('m'),
        Key::N => Some('n'),
        Key::O => Some('o'),
        Key::P => Some('p'),
        Key::Q => Some('q'),
        Key::R => Some('r'),
        Key::S => Some('s'),
        Key::T => Some('t'),
        Key::U => Some('u'),
        Key::V => Some('v'),
        Key::W => Some('w'),
        Key::X => Some('x'),
        Key::Y => Some('y'),
        Key::Z => Some('z'),
        Key::Space => Some(' '),
        Key::Enter => Some('\n'),
        Key::Comma => Some(','),
        Key::Period => Some('.'),
        Key::Apostrophe => Some('\''),
        Key::Semicolon => Some(';'),
        Key::Slash => Some('/'),
        Key::Backslash => Some('\\'),
        Key::LeftBracket => Some('['),
        Key::RightBracket => Some(']'),
        Key::Minus => Some('-'),
        Key::Equal => Some('='),
        Key::Grave => Some('`'),
        Key::Zero => Some('0'),
        Key::One => Some('1'),
        Key::Two => Some('2'),
        Key::Three => Some('3'),
        Key::Four => Some('4'),
        Key::Five => Some('5'),
        Key::Six => Some('6'),
        Key::Seven => Some('7'),
        Key::Eight => Some('8'),
        Key::Nine => Some('9'),
        Key::Backspace => None,
        Key::Other => None,
    }
}

/// The character a key types without a modifier.
pub fn keyboard_key_to_char(key: Key) -> (r: Option<char>)
    ensures
        r == key_char(key),
{
    match key {
        Key::A => Some('a'),
        Key::B => Some('b'),
        Key::C => Some('c'),
        Key::D => Some('d'),
        Key::E => Some('e'),
        Key::F => Some('f'),
        Key::G => Some('g'),
        Key::H => Some('h'),
        Key::I => Some('i'),
        Key::J => Some('j'),
        Key::K => Some('k'),
        Key::L => Some('l'),
        Key::M => Some('m'),
        Key::N => Some('n'),
        Key::O => Some('o'),
        Key::P => Some('p'),
        Key::Q => Some('q'),
        Key::R => Some('r'),
        Key::S => Some('s'),
        Key::T => Some('t'),
        Key::U => Some('u'),
        Key::V => Some('v'),
        Key::W => Some('w'),
        Key::X => Some('x'),
        Key::Y => Some('y'),
        Key::Z => Some('z'),
        Key::Space => Some(' '),
        Key::Enter => Some('\n'),
        Key::Comma => Some(','),
        Key::Period => Some('.'),
        Key::Apostrophe => Some('\''),
        Key::Semicolon => Some(';'),
        Key::Slash => Some('/'),
        Key::Backslash => Some('\\'),
        Key::LeftBracket => Some('['),
        Key::RightBracket => Some(']'),
        Key::Minus => Some('-'),
        Key::Equal => Some('='),
        Key::Grave => Some('`'),
        Key::Zero => Some('0'),
        Key::One => Some('1'),
        Key::Two => Some('2'),
        Key::Three => Some('3'),
        Key::Four => Some('4'),
        Key::Five => Some('5'),
        Key::Six => Some('6'),
        Key::Seven => Some('7'),
        Key::Eight => Some('8'),
        Key::Nine => Some('9'),
        Key::Backspace => None,
        Key::Other => None,
    }
}

/// What a character becomes while shift is held: a lower-case ASCII letter
/// is capitalised, a digit or punctuation key gives the symbol printed above
/// it, and everything else stays as it is.
pub open spec fn shifted(c: char) -> char {
    if 'a' <= c <= 'z' {
        ((c as u8) - 32) as char
    } else if c == '0' {
        ')'
    } else if c == '1' {
        '!'
    } else if c == '2' {
        '@'
    } else if c == '3' {
        '#'
    } else if c == '4' {
        '$'
    } else if c == '5' {
        '%'
    } else if c == '6' {
        '^'
    } else if c == '7' {
        '&'
    } else if c == '8' {
        '*'
    } else if c == '9' {
        '('
    } else if c == '-' {
        '_'
    } else if c == '=' {
        '+'
    } else if c == '[' {
        '{'
    } else if c == ']' {
        '}'
    } else if c == '\\' {
        '|'
    } else if c == ';' {
        ':'
    } else if c == '\'' {
        '"'
    } else if c == ',' {
        '<'
    } else if c == '.' {
        '>'
    } else if c == '/' {
        '?'
    } else if c == '`' {
        '~'
    } else {
        c
    }
}

/// Applies the shift modifier to a character.
pub fn shift_character(c: char) -> (r: char)
    ensures
        r == shifted(c),
        'a' <= c <= 'z' ==> 'A' <= r <= 'Z' && r as int == c as int - 32,
        'A' <= c <= 'Z' ==> r == c,
{
    if c >= 'a' && c <= 'z' {
        ((c as u8) - 32) as char
    } else {
        match c {
            '0' => ')',
            '1' => '!',
            '2' => '@',
            '3' => '#',
            '4' => '$',
            '5' => '%',
            '6' => '^',
            '7' => '&',
            '8' => '*',
            '9' => '(',
            '-' => '_',
            '=' => '+',
            '[' => '{',
            ']' => '}',
            '\\' => '|',
            ';' => ':',
            '\'' => '"',
            ',' => '<',
            '.' => '>',
            '/' => '?',
            '`' => '~',
            _ => c,
        }
    }
}

/// The text after a key event: backspace removes the last character, a key
/// that types a character appends it (shifted if shift is held), any other
/// event leaves the text as it is.
pub open spec fn text_after_key(key_event: KeyEvent, text: Seq<char>) -> Seq<char> {
    match key_event.key {
        Some(Key::Backspace) => if text.len() > 0 {
            text.drop_last()
        } else {
            text
        },
        Some(key) => match key_char(key) {
            Some(c) => text.push(
                if key_event.shift_down {
                    shifted(c)
                } else {
                    c
                },
            ),
            None => text,
        },
        None => text,
    }
}

/// Whether the default reducer consumes a key event: it does for backspace
/// and for every key that types a character.
pub open spec fn key_is_handled(key_event: KeyEvent) -> bool {
    match key_event.key {
        Some(key) => key == Key::Backspace || key_char(key) is Some,
        None => false,
    }
}

/// The default key reducer of a text input.
pub fn def_key_handler(key_event: KeyEvent, text: &mut String) -> (handled: bool)
    ensures
        final(text)@ == text_after_key(key_event, old(text)@),
        handled == key_is_handled(key_event),
{
    if let Some(key) = key_event.key {
        if key == Key::Backspace {
            let _ = string_pop(text);
            return true;
        }
        if let Some(typed) = keyboard_key_to_char(key) {
            let c = if key_event.shift_down {
                shift_character(typed)
            } else {
                typed
            };
            string_push(text, c);
            return true;
        }
    }
    false
}

} // verus!
