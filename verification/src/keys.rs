//! The events the panel reacts to, and which action each key stands for in
//! each part of the panel.

use vstd::prelude::*;

use crate::model::FocusedField;

verus! {

/// A key, as the editor reports it.
#[derive(Clone, Copy, PartialEq, Eq, Debug, Structural)]
pub enum KeyCode {
    Char(char),
    Esc,
    Tab,
    Enter,
    Backspace,
    Delete,
    Left,
    Right,
    Up,
    Down,
    Home,
    End,
    /// Any key the panel gives no meaning of its own.
    Other,
}

/// The modifiers held with a key.
#[derive(Clone, Copy, PartialEq, Eq, Debug, Structural)]
pub struct KeyModifiers {
    pub shift: bool,
    pub ctrl: bool,
    pub alt: bool,
    pub super_key: bool,
}

#[derive(Clone, Copy, PartialEq, Eq, Debug, Structural)]
pub struct KeyEvent {
    pub code: KeyCode,
    pub modifiers: KeyModifiers,
}

/// An event delivered to the panel.
pub enum Event {
    Key(KeyEvent),
    Paste(String),
    IdleTimeout,
    Resize(u16, u16),
    /// Mouse, focus and other events the panel does not handle.
    Other,
}

/// What a key asks the panel to do.
#[derive(Clone, Copy, PartialEq, Eq, Debug, Structural)]
pub enum KeyAction {
    Close,
    FocusNext,
    FocusPrev,
    ToggleMatchCase,
    ToggleRegex,
    ToggleWholeWord,
    // In the search and replace inputs.
    Submit,
    SwitchScope,
    CharLeft,
    CharRight,
    LineStart,
    LineEnd,
    WordLeft,
    WordRight,
    DeleteBack,
    DeleteForward,
    DeleteWord,
    KillToEnd,
    KillToStart,
    Insert(char),
    // In the result list.
    ResultDown,
    ResultUp,
    ToggleResult,
    SelectAll,
    SelectNone,
    ReplaceHovered,
    ReplaceSelected,
    ResultsSwitchScope,
    Nothing,
}

pub open spec fn is_plain(m: KeyModifiers) -> bool {
    !m.shift && !m.ctrl && !m.alt && !m.super_key
}

pub open spec fn is_ctrl(m: KeyModifiers) -> bool {
    !m.shift && m.ctrl && !m.alt && !m.super_key
}

pub open spec fn is_alt(m: KeyModifiers) -> bool {
    !m.shift && !m.ctrl && m.alt && !m.super_key
}

pub open spec fn is_shift(m: KeyModifiers) -> bool {
    m.shift && !m.ctrl && !m.alt && !m.super_key
}

/// The keys that act the same wherever the focus is.
pub open spec fn global_action(k: KeyEvent) -> Option<KeyAction> {
    let m = k.modifiers;
    if (is_ctrl(m) && k.code == KeyCode::Char('c')) || (is_plain(m) && k.code == KeyCode::Esc) {
        Some(KeyAction::Close)
    } else if is_plain(m) && k.code == KeyCode::Tab {
        Some(KeyAction::FocusNext)
    } else if is_shift(m) && k.code == KeyCode::Tab {
        Some(KeyAction::FocusPrev)
    } else if is_alt(m) && k.code == KeyCode::Char('c') {
        Some(KeyAction::ToggleMatchCase)
    } else if is_alt(m) && k.code == KeyCode::Char('r') {
        Some(KeyAction::ToggleRegex)
    } else if is_alt(m) && k.code == KeyCode::Char('w') {
        Some(KeyAction::ToggleWholeWord)
    } else {
        None
    }
}

/// The keys of the search and replace inputs.
pub open spec fn input_action(k: KeyEvent) -> KeyAction {
    let m = k.modifiers;
    let c = k.code;
    if is_plain(m) && c == KeyCode::Enter {
        KeyAction::Submit
    } else if is_ctrl(m) && c == KeyCode::Char('s') {
        KeyAction::SwitchScope
    } else if (is_plain(m) && c == KeyCode::Left) || (is_ctrl(m) && c == KeyCode::Char('b')) {
        KeyAction::CharLeft
    } else if (is_plain(m) && c == KeyCode::Right) || (is_ctrl(m) && c == KeyCode::Char('f')) {
        KeyAction::CharRight
    } else if (is_plain(m) && c == KeyCode::Home) || (is_ctrl(m) && c == KeyCode::Char('a')) {
        KeyAction::LineStart
    } else if (is_plain(m) && c == KeyCode::End) || (is_ctrl(m) && c == KeyCode::Char('e')) {
        KeyAction::LineEnd
    } else if (is_ctrl(m) && c == KeyCode::Left) || (is_alt(m) && c == KeyCode::Char('b')) {
        KeyAction::WordLeft
    } else if (is_ctrl(m) && c == KeyCode::Right) || (is_alt(m) && c == KeyCode::Char('f')) {
        KeyAction::WordRight
    } else if (is_plain(m) && c == KeyCode::Backspace) || (is_ctrl(m) && c == KeyCode::Char('h')) {
        KeyAction::DeleteBack
    } else if (is_plain(m) && c == KeyCode::Delete) || (is_ctrl(m) && c == KeyCode::Char('d')) {
        KeyAction::DeleteForward
    } else if is_ctrl(m) && c == KeyCode::Char('w') {
        KeyAction::DeleteWord
    } else if is_ctrl(m) && c == KeyCode::Char('k') {
        KeyAction::KillToEnd
    } else if is_ctrl(m) && c == KeyCode::Char('u') {
        KeyAction::KillToStart
    } else {
        match c {
            KeyCode::Char(ch) => KeyAction::Insert(ch),
            _ => KeyAction::Nothing,
        }
    }
}

/// The keys of the result list.
pub open spec fn results_action(k: KeyEvent) -> KeyAction {
    let m = k.modifiers;
    let c = k.code;
    if is_plain(m) && (c == KeyCode::Char('j') || c == KeyCode::Down) {
        KeyAction::ResultDown
    } else if is_plain(m) && (c == KeyCode::Char('k') || c == KeyCode::Up) {
        KeyAction::ResultUp
    } else if is_plain(m) && c == KeyCode::Char(' ') {
        KeyAction::ToggleResult
    } else if is_plain(m) && c == KeyCode::Char('a') {
        KeyAction::SelectAll
    } else if is_plain(m) && c == KeyCode::Char('n') {
        KeyAction::SelectNone
    } else if is_plain(m) && c == KeyCode::Enter {
        KeyAction::ReplaceHovered
    } else if is_plain(m) && c == KeyCode::Char('R') {
        KeyAction::ReplaceSelected
    } else if is_ctrl(m) && c == KeyCode::Char('s') {
        KeyAction::ResultsSwitchScope
    } else {
        KeyAction::Nothing
    }
}

/// The action `k` stands for when `focused` has the keyboard.
pub open spec fn key_action(focused: FocusedField, k: KeyEvent) -> KeyAction {
    match global_action(k) {
        Some(a) => a,
        None => match focused {
            FocusedField::Results => results_action(k),
            _ => input_action(k),
        },
    }
}

fn plain(m: &KeyModifiers) -> (b: bool)
    ensures
        b == is_plain(*m),
{
    !m.shift && !m.ctrl && !m.alt && !m.super_key
}

fn ctrl(m: &KeyModifiers) -> (b: bool)
    ensures
        b == is_ctrl(*m),
{
    !m.shift && m.ctrl && !m.alt && !m.super_key
}

fn alt(m: &KeyModifiers) -> (b: bool)
    ensures
        b == is_alt(*m),
{
    !m.shift && !m.ctrl && m.alt && !m.super_key
}

fn shift(m: &KeyModifiers) -> (b: bool)
    ensures
        b == is_shift(*m),
{
    m.shift && !m.ctrl && !m.alt && !m.super_key
}

fn classify_global(k: &KeyEvent) -> (a: Option<KeyAction>)
    ensures
        a == global_action(*k),
{
    let m = &k.modifiers;
    if (ctrl(m) && k.code == KeyCode::Char('c')) || (plain(m) && k.code == KeyCode::Esc) {
        Some(KeyAction::Close)
    } else if plain(m) && k.code == KeyCode::Tab {
        Some(KeyAction::FocusNext)
    } else if shift(m) && k.code == KeyCode::Tab {
        Some(KeyAction::FocusPrev)
    } else if alt(m) && k.code == KeyCode::Char('c') {
        Some(KeyAction::ToggleMatchCase)
    } else if alt(m) && k.code == KeyCode::Char('r') {
        Some(KeyAction::ToggleRegex)
    } else if alt(m) && k.code == KeyCode::Char('w') {
        Some(KeyAction::ToggleWholeWord)
    } else {
        None
    }
}

fn classify_input(k: &KeyEvent) -> (a: KeyAction)
    ensures
        a == input_action(*k),
{
    let m = &k.modifiers;
    let c = k.code;
    if plain(m) && c == KeyCode::Enter {
        KeyAction::Submit
    } else if ctrl(m) && c == KeyCode::Char('s') {
        KeyAction::SwitchScope
    } else if (plain(m) && c == KeyCode::Left) || (ctrl(m) && c == KeyCode::Char('b')) {
        KeyAction::CharLeft
    } else if (plain(m) && c == KeyCode::Right) || (ctrl(m) && c == KeyCode::Char('f')) {
        KeyAction::CharRight
    } else if (plain(m) && c == KeyCode::Home) || (ctrl(m) && c == KeyCode::Char('a')) {
        KeyAction::LineStart
    } else if (plain(m) && c == KeyCode::End) || (ctrl(m) && c == KeyCode::Char('e')) {
        KeyAction::LineEnd
    } else if (ctrl(m) && c == KeyCode::Left) || (alt(m) && c == KeyCode::Char('b')) {
        KeyAction::WordLeft
    } else if (ctrl(m) && c == KeyCode::Right) || (alt(m) && c == KeyCode::Char('f')) {
        KeyAction::WordRight
    } else if (plain(m) && c == KeyCode::Backspace) || (ctrl(m) && c == KeyCode::Char('h')) {
        KeyAction::DeleteBack
    } else if (plain(m) && c == KeyCode::Delete) || (ctrl(m) && c == KeyCode::Char('d')) {
        KeyAction::DeleteForward
    } else if ctrl(m) && c == KeyCode::Char('w') {
        KeyAction::DeleteWord
    } else if ctrl(m) && c == KeyCode::Char('k') {
        KeyAction::KillToEnd
    } else if ctrl(m) && c == KeyCode::Char('u') {
        KeyAction::KillToStart
    } else {
        match c {
            KeyCode::Char(ch) => KeyAction::Insert(ch),
            _ => KeyAction::Nothing,
        }
    }
}

fn classify_results(k: &KeyEvent) -> (a: KeyAction)
    ensures
        a == results_action(*k),
{
    let m = &k.modifiers;
    let c = k.code;
    if plain(m) && (c == KeyCode::Char('j') || c == KeyCode::Down) {
        KeyAction::ResultDown
    } else if plain(m) && (c == KeyCode::Char('k') || c == KeyCode::Up) {
        KeyAction::ResultUp
    } else if plain(m) && c == KeyCode::Char(' ') {
        KeyAction::ToggleResult
    } else if plain(m) && c == KeyCode::Char('a') {
        KeyAction::SelectAll
    } else if plain(m) && c == KeyCode::Char('n') {
        KeyAction::SelectNone
    } else if plain(m) && c == KeyCode::Enter {
        KeyAction::ReplaceHovered
    } else if plain(m) && c == KeyCode::Char('R') {
        KeyAction::ReplaceSelected
    } else if ctrl(m) && c == KeyCode::Char('s') {
        KeyAction::ResultsSwitchScope
    } else {
        KeyAction::Nothing
    }
}

/// The action `k` stands for when `focused` has the keyboard.
pub fn classify_key(focused: FocusedField, k: &KeyEvent) -> (a: KeyAction)
    ensures
        a == key_action(focused, *k),
{
    match classify_global(k) {
        Some(a) => a,
        None => match focused {
            FocusedField::Results => classify_results(k),
            _ => classify_input(k),
        },
    }
}

} // verus!
