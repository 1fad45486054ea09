//! Keyboard shortcuts of the desktop client: which command a key press
//! with its modifiers gives.

use vstd::prelude::*;
use crate::browser::ViewMode;
use crate::text::str_eq;

verus! {

/// A named key the shortcuts use; `Other` for every other named key.
#[derive(Debug, Clone, Copy, PartialEq, Eq, Structural)]
pub enum KeyName {
    ArrowLeft,
    ArrowRight,
    Escape,
    Backspace,
    Enter,
    Other,
}

/// A pressed key: a named key, or the text a character key produces.
#[derive(Debug, Clone, PartialEq, Eq)]
pub enum PressedKey {
    Named(KeyName),
    Character(String),
}

/// The modifiers held: Ctrl, the platform's command modifier (as the
/// windowing toolkit reports it), and Alt.
#[derive(Debug, Clone, Copy, PartialEq, Eq, Structural)]
pub struct Modifiers {
    pub control: bool,
    pub command: bool,
    pub alt: bool,
}

/// What a shortcut asks the client to do.
#[derive(Debug, Clone, Copy, PartialEq, Eq, Structural)]
pub enum Shortcut {
    FocusSearch,
    NavigateBack,
    NavigateForward,
    SelectAll,
    ClipboardCopy,
    ClipboardCut,
    ClipboardPaste,
    SetViewMode(ViewMode),
    Escape,
    Backspace,
    ActivateCursor,
    MoveCursor(i32),
}

/// Whether `k` is the character key producing `text`.
pub open spec fn is_char(k: PressedKey, text: Seq<char>) -> bool {
    k matches PressedKey::Character(c) && c@ == text
}

/// The shortcut of key `k` with modifiers `m`: Ctrl/command+K focuses
/// search; with Alt, Left and Right go back and forward; with Ctrl/command,
/// A, C, X, V select all, copy, cut and paste, and 1 and 2 switch to the
/// list and grid views; without modifiers, Escape, Backspace and Enter act,
/// `/` focuses search and `j`/`k` move the cursor down and up. Every other
/// press is no shortcut.
pub open spec fn spec_shortcut(k: PressedKey, m: Modifiers) -> Option<Shortcut> {
    let ctrl = m.control || m.command;
    if ctrl && is_char(k, "k"@) {
        Some(Shortcut::FocusSearch)
    } else if m.alt {
        match k {
            PressedKey::Named(KeyName::ArrowLeft) => Some(Shortcut::NavigateBack),
            PressedKey::Named(KeyName::ArrowRight) => Some(Shortcut::NavigateForward),
            _ => None,
        }
    } else if ctrl {
        if is_char(k, "a"@) {
            Some(Shortcut::SelectAll)
        } else if is_char(k, "c"@) {
            Some(Shortcut::ClipboardCopy)
        } else if is_char(k, "x"@) {
            Some(Shortcut::ClipboardCut)
        } else if is_char(k, "v"@) {
            Some(Shortcut::ClipboardPaste)
        } else if is_char(k, "1"@) {
            Some(Shortcut::SetViewMode(ViewMode::List))
        } else if is_char(k, "2"@) {
            Some(Shortcut::SetViewMode(ViewMode::Grid))
        } else {
            None
        }
    } else {
        match k {
            PressedKey::Named(KeyName::Escape) => Some(Shortcut::Escape),
            PressedKey::Named(KeyName::Backspace) => Some(Shortcut::Backspace),
            PressedKey::Named(KeyName::Enter) => Some(Shortcut::ActivateCursor),
            _ => if is_char(k, "/"@) {
                Some(Shortcut::FocusSearch)
            } else if is_char(k, "j"@) {
                Some(Shortcut::MoveCursor(1i32))
            } else if is_char(k, "k"@) {
                Some(Shortcut::MoveCursor(-1i32))
            } else {
                None
            },
        }
    }
}

/// Whether `k` is the character key producing `text`.
fn char_is(k: &PressedKey, text: &str) -> (r: bool)
    ensures
        r == is_char(*k, text@),
{
    match k {
        PressedKey::Character(c) => str_eq(c.as_str(), text),
        PressedKey::Named(_) => false,
    }
}

/// The shortcut of a key press (see [`spec_shortcut`]).
pub fn shortcut(k: &PressedKey, m: Modifiers) -> (r: Option<Shortcut>)
    ensures
        r == spec_shortcut(*k, m),
{
    let ctrl = m.control || m.command;
    if ctrl && char_is(k, "k") {
        return Some(Shortcut::FocusSearch);
    }
    if m.alt {
        return match k {
            PressedKey::Named(KeyName::ArrowLeft) => Some(Shortcut::NavigateBack),
            PressedKey::Named(KeyName::ArrowRight) => Some(Shortcut::NavigateForward),
            _ => None,
        };
    }
    if ctrl {
        return if char_is(k, "a") {
            Some(Shortcut::SelectAll)
        } else if char_is(k, "c") {
            Some(Shortcut::ClipboardCopy)
        } else if char_is(k, "x") {
            Some(Shortcut::ClipboardCut)
        } else if char_is(k, "v") {
            Some(Shortcut::ClipboardPaste)
        } else if char_is(k, "1") {
            Some(Shortcut::SetViewMode(ViewMode::List))
        } else if char_is(k, "2") {
            Some(Shortcut::SetViewMode(ViewMode::Grid))
        } else {
            None
        };
    }
    match k {
        PressedKey::Named(KeyName::Escape) => Some(Shortcut::Escape),
        PressedKey::Named(KeyName::Backspace) => Some(Shortcut::Backspace),
        PressedKey::Named(KeyName::Enter) => Some(Shortcut::ActivateCursor),
        _ => if char_is(k, "/") {
            Some(Shortcut::FocusSearch)
        } else if char_is(k, "j") {
            Some(Shortcut::MoveCursor(1))
        } else if char_is(k, "k") {
            Some(Shortcut::MoveCursor(-1))
        } else {
            None
        },
    }
}

} // verus!
