//! The launcher window's state and how it reacts to messages.

use vstd::prelude::*;
use vstd::string::StringExecFns;

verus! {

/// What the launcher window holds.
#[derive(Debug, Clone)]
pub struct AppState {
    pub input: String,
    pub _selected_entry: Option<String>,
    pub _entries: Vec<String>,
}

impl Default for AppState {
    fn default() -> (state: AppState)
        ensures
            state.input@ == Seq::<char>::empty(),
            state._selected_entry is None,
            state._entries@ == Seq::<String>::empty(),
    {
        AppState { input: String::new(), _selected_entry: None, _entries: Vec::new() }
    }
}

/// A key of the keyboard, as far as the launcher tells keys apart.
#[derive(Debug, Clone, Copy)]
pub enum Key {
    Escape,
    ArrowUp,
    ArrowDown,
    Other,
}

/// A window event, as far as the launcher tells events apart.
#[derive(Debug, Clone, Copy)]
pub enum WindowEvent {
    KeyPressed(Key),
    Other,
}

/// A message to the launcher window.
#[derive(Debug, Clone)]
pub enum Message {
    /// The search text changed to this text
    Query(String),
    /// The search text was submitted
    Submit(String),
    /// A window event arrived
    Event(WindowEvent),
}

/// What the window does after an update: the line it prints, if any, and
/// whether it closes.
#[derive(Debug, Clone)]
pub struct UpdateEffect {
    pub printed: Option<String>,
    pub exit: bool,
}

/// The name under which the launcher's layer surface is registered.
pub fn namespace() -> (name: String)
    ensures
        name@ == "kakashi"@,
{
    String::from_str("kakashi")
}

/// The line printed for each key that the launcher reacts to; `None` for the
/// others.
pub open spec fn key_line(key: Key) -> Option<Seq<char>> {
    match key {
        Key::Escape => Some("Pressed Escape"@),
        Key::ArrowUp => Some("Pressed Up"@),
        Key::ArrowDown => Some("Pressed Down"@),
        Key::Other => None,
    }
}

/// The printed line of an effect, as characters.
pub open spec fn printed_view(effect: UpdateEffect) -> Option<Seq<char>> {
    match effect.printed {
        Some(line) => Some(line@),
        None => None,
    }
}

/// Applies a message to the window's state: a query replaces the search text;
/// a submit prints the submitted text; Escape prints a line and closes the
/// window; the arrow keys print a line; everything else is ignored.
pub fn update(state: &mut AppState, message: Message) -> (effect: UpdateEffect)
    ensures
        message matches Message::Query(input) ==> final(state).input == input && effect.printed is None
            && !effect.exit,
        message matches Message::Submit(input) ==> (effect.printed matches Some(line) && line@ == input@)
            && !effect.exit,
        message matches Message::Event(WindowEvent::KeyPressed(Key::Escape)) ==> (
        effect.printed matches Some(line) && line@ == "Pressed Escape"@) && effect.exit,
        message matches Message::Event(WindowEvent::KeyPressed(Key::ArrowUp)) ==> (
        effect.printed matches Some(line) && line@ == "Pressed Up"@) && !effect.exit,
        message matches Message::Event(WindowEvent::KeyPressed(Key::ArrowDown)) ==> (
        effect.printed matches Some(line) && line@ == "Pressed Down"@) && !effect.exit,
        message matches Message::Event(WindowEvent::KeyPressed(Key::Other)) ==> effect.printed is None
            && !effect.exit,
        message matches Message::Event(WindowEvent::Other) ==> effect.printed is None && !effect.exit,
        !(message is Query) ==> final(state).input == old(state).input,
        final(state)._selected_entry == old(state)._selected_entry,
        final(state)._entries == old(state)._entries,
        match message {
            Message::Query(input) => {
                &&& final(state).input == input
                &&& printed_view(effect) is None
                &&& !effect.exit
            },
            Message::Submit(input) => {
                &&& final(state).input == old(state).input
                &&& printed_view(effect) == Some(input@)
                &&& !effect.exit
            },
            Message::Event(WindowEvent::KeyPressed(key)) => {
                &&& final(state).input == old(state).input
                &&& printed_view(effect) == key_line(key)
                &&& effect.exit == (key == Key::Escape)
            },
            Message::Event(WindowEvent::Other) => {
                &&& final(state).input == old(state).input
                &&& printed_view(effect) is None
                &&& !effect.exit
            },
        },
{
    match message {
        Message::Query(input) => {
            state.input = input;
            UpdateEffect { printed: None, exit: false }
        },
        Message::Submit(input) => UpdateEffect { printed: Some(input), exit: false },
        Message::Event(WindowEvent::KeyPressed(key)) => match key {
            Key::Escape => UpdateEffect {
                printed: Some(String::from_str("Pressed Escape")),
                exit: true,
            },
            Key::ArrowUp => UpdateEffect { printed: Some(String::from_str("Pressed Up")), exit: false },
            Key::ArrowDown => UpdateEffect {
                printed: Some(String::from_str("Pressed Down")),
                exit: false,
            },
            Key::Other => UpdateEffect { printed: None, exit: false },
        },
        Message::Event(WindowEvent::Other) => UpdateEffect { printed: None, exit: false },
    }
}

} // verus!
