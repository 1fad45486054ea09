use wunderdrive::browser::ViewMode;
use wunderdrive::shortcut::{shortcut, KeyName, Modifiers, PressedKey, Shortcut};

fn ch(s: &str) -> PressedKey {
    PressedKey::Character(s.to_string())
}

const NONE: Modifiers = Modifiers { control: false, command: false, alt: false };
const CTRL: Modifiers = Modifiers { control: true, command: false, alt: false };
const CMD: Modifiers = Modifiers { control: false, command: true, alt: false };
const ALT: Modifiers = Modifiers { control: false, command: false, alt: true };

#[test]
fn search_shortcuts() {
    assert_eq!(shortcut(&ch("k"), CTRL), Some(Shortcut::FocusSearch));
    assert_eq!(shortcut(&ch("k"), CMD), Some(Shortcut::FocusSearch));
    assert_eq!(shortcut(&ch("/"), NONE), Some(Shortcut::FocusSearch));
}

#[test]
fn alt_arrows_navigate_history() {
    assert_eq!(shortcut(&PressedKey::Named(KeyName::ArrowLeft), ALT), Some(Shortcut::NavigateBack));
    assert_eq!(shortcut(&PressedKey::Named(KeyName::ArrowRight), ALT), Some(Shortcut::NavigateForward));
    assert_eq!(shortcut(&ch("j"), ALT), None);
    assert_eq!(shortcut(&PressedKey::Named(KeyName::ArrowLeft), NONE), None);
}

#[test]
fn control_shortcuts() {
    assert_eq!(shortcut(&ch("a"), CTRL), Some(Shortcut::SelectAll));
    assert_eq!(shortcut(&ch("c"), CMD), Some(Shortcut::ClipboardCopy));
    assert_eq!(shortcut(&ch("x"), CTRL), Some(Shortcut::ClipboardCut));
    assert_eq!(shortcut(&ch("v"), CTRL), Some(Shortcut::ClipboardPaste));
    assert_eq!(shortcut(&ch("1"), CTRL), Some(Shortcut::SetViewMode(ViewMode::List)));
    assert_eq!(shortcut(&ch("2"), CTRL), Some(Shortcut::SetViewMode(ViewMode::Grid)));
    assert_eq!(shortcut(&ch("j"), CTRL), None);
    assert_eq!(shortcut(&PressedKey::Named(KeyName::Enter), CTRL), None);
}

#[test]
fn plain_keys() {
    assert_eq!(shortcut(&PressedKey::Named(KeyName::Escape), NONE), Some(Shortcut::Escape));
    assert_eq!(shortcut(&PressedKey::Named(KeyName::Backspace), NONE), Some(Shortcut::Backspace));
    assert_eq!(shortcut(&PressedKey::Named(KeyName::Enter), NONE), Some(Shortcut::ActivateCursor));
    assert_eq!(shortcut(&ch("j"), NONE), Some(Shortcut::MoveCursor(1)));
    assert_eq!(shortcut(&ch("k"), NONE), Some(Shortcut::MoveCursor(-1)));
    assert_eq!(shortcut(&ch("kk"), NONE), None);
    assert_eq!(shortcut(&PressedKey::Named(KeyName::Other), NONE), None);
}
