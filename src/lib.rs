//! A single-choice selection prompt for text terminals.
//!
//! The library holds the prompt's configuration, the key decision table, the
//! highlighted index and the pagination of long lists. Reading keys and
//! drawing on a terminal is left to the caller, who feeds keys and terminal
//! heights in and acts on what comes back.
pub mod key;
pub mod paging;
pub mod select;
pub mod theme;

pub use key::{Action, Key};
pub use theme::{SimpleTheme, Theme};
pub use paging::Paging;
pub use select::{wrapped_lines, Select, SelectError, Selection, Session, Step};
