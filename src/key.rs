use vstd::prelude::*;

verus! {

/// A key press, as far as the selection prompt tells keys apart.
#[derive(Clone, Copy, Debug, PartialEq, Eq, Structural)]
pub enum Key {
    ArrowDown,
    ArrowUp,
    ArrowLeft,
    ArrowRight,
    Escape,
    Enter,
    Char(char),
    Unknown,
}

/// What a key asks the prompt to do.
#[derive(Clone, Copy, Debug, PartialEq, Eq, Structural)]
pub enum Action {
    MoveNext,
    MovePrev,
    PagePrev,
    PageNext,
    Cancel,
    Confirm,
    Ignore,
}

/// The key decision table: arrows and vi keys move, Escape and `q` cancel,
/// Enter and Space confirm; every other key is ignored.
pub open spec fn action_of(key: Key) -> Action {
    match key {
        Key::ArrowDown | Key::Char('j') => Action::MoveNext,
        Key::ArrowUp | Key::Char('k') => Action::MovePrev,
        Key::ArrowLeft | Key::Char('h') => Action::PagePrev,
        Key::ArrowRight | Key::Char('l') => Action::PageNext,
        Key::Escape | Key::Char('q') => Action::Cancel,
        Key::Enter | Key::Char(' ') => Action::Confirm,
        _ => Action::Ignore,
    }
}

impl Action {
    /// Maps a key to the action it stands for.
    pub fn from_key(key: Key) -> (r: Action)
        ensures
            r == action_of(key),
    {
        match key {
            Key::ArrowDown => Action::MoveNext,
            Key::ArrowUp => Action::MovePrev,
            Key::ArrowLeft => Action::PagePrev,
            Key::ArrowRight => Action::PageNext,
            Key::Escape => Action::Cancel,
            Key::Enter => Action::Confirm,
            Key::Char(c) => {
                if c == 'j' {
                    Action::MoveNext
                } else if c == 'k' {
                    Action::MovePrev
                } else if c == 'h' {
                    Action::PagePrev
                } else if c == 'l' {
                    Action::PageNext
                } else if c == 'q' {
                    Action::Cancel
                } else if c == ' ' {
                    Action::Confirm
                } else {
                    Action::Ignore
                }
            },
            Key::Unknown => Action::Ignore,
        }
    }
}

} // verus!
