//! Translation of a curses terminal's key codes and colour capabilities into
//! the portable event and colour model of a text-UI toolkit.
pub mod curses;
pub mod event;
pub mod theme;
