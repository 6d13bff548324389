//! The events that drive the reader's main loop, and the actions it performs.
use vstd::prelude::*;
use crate::app::AppState;

verus! {

/// A key of the keyboard, as the reader distinguishes them.
#[derive(Debug, Clone, Copy, PartialEq, Eq)]
pub enum KeyCode {
    Char(char),
    Enter,
    Esc,
    Backspace,
    Up,
    Down,
    Left,
    Right,
    Other,
}

/// A key press: the key, and whether Control (and no other modifier) was held.
#[derive(Debug, Clone, Copy, PartialEq, Eq)]
pub struct KeyEvent {
    pub code: KeyCode,
    pub ctrl: bool,
}

/// The events of the main loop, in the order they arrive.
#[derive(Debug, Clone, PartialEq, Eq)]
pub enum Event {
    /// Terminal tick.
    Tick,
    /// Key press.
    Key(KeyEvent),
    /// Terminal resize.
    Resize(u16, u16),
    /// Show the current page if it is ready.
    RenderPdf,
    /// Start the next conversion of the prefetch queue.
    LoadingNext,
    /// A page was asked for: put it first in the prefetch queue.
    LoadingFirst(u32),
    /// Switch the input mode.
    ChangeState(AppState),
    /// The conversion of a page has finished and its image is on disk.
    PageConverted(u32),
    /// The conversion of a page has failed.
    ConversionFailed(u32),
}

/// What the main loop is asked to do after an event.
#[derive(Debug, Clone, PartialEq, Eq)]
pub enum Action {
    /// Send an event to the main loop.
    Emit(Event),
    /// Start converting a page in the background; the conversion ends with
    /// `PageConverted` or `ConversionFailed` for that page.
    Convert(u32),
    /// Read the current page's image from the cache and display it.
    Show(u32),
    /// Enlarge the page preview.
    ZoomIn,
    /// Shrink the page preview.
    ZoomOut,
}

} // verus!
