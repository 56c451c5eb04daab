//! Plain widget-state data a host's UI layer reads and writes: which panels
//! are open and how wide the drawing cursor is.

use vstd::prelude::*;

verus! {

/// Panel visibility flags and the cursor (brush) size, in cells.
#[derive(Clone)]
pub struct UiState {
    pub show_window: bool,
    pub show_help: bool,
    pub show_about: bool,
    pub cursor_size: usize,
}

impl UiState {
    /// The initial state: the settings and help panels are shown, the about
    /// panel is hidden, and the cursor spans ten cells.
    pub fn new() -> (r: UiState)
        ensures
            r.show_window,
            r.show_help,
            !r.show_about,
            r.cursor_size == 10,
    {
        UiState { show_window: true, show_help: true, show_about: false, cursor_size: 10 }
    }
}

} // verus!
