//! What the host tells the picker, and what the picker asks of the host.
use crate::tabs::{PaneManifest, TabInfo};
use vstd::prelude::*;

verus! {

/// A key without its modifiers, as far as the picker tells keys apart.
#[derive(Clone, Copy, Debug, PartialEq, Eq, Structural)]
pub enum BareKey {
    Esc,
    Enter,
    Up,
    Down,
    Tab,
    Backspace,
    Char(char),
    /// Any key that the picker has no use for.
    Other,
}

/// A key press.
#[derive(Clone, Copy, Debug, PartialEq, Eq, Structural)]
pub struct Key {
    pub bare_key: BareKey,
    pub has_ctrl: bool,
    pub has_alt: bool,
}

/// A mouse event. Lines and columns are relative to the pane; a line above
/// the pane is negative.
#[derive(Clone, Copy, Debug, PartialEq, Eq, Structural)]
pub enum Mouse {
    ScrollUp,
    ScrollDown,
    LeftClick(isize, usize),
    /// Right clicks, drags, hover.
    Other,
}

/// Which way the selection moves.
#[derive(Clone, Copy, Debug, PartialEq, Eq, Structural)]
pub enum Direction {
    Up,
    Down,
}

/// What the host tells the picker.
pub enum Event {
    /// The permissions were granted; the picker's own pane has this id.
    PermissionGranted { plugin_id: u32 },
    PermissionDenied,
    TabUpdate(Vec<TabInfo>),
    PaneUpdate(PaneManifest),
    Key(Key),
    Mouse(Mouse),
    /// A timer fired after this many nanoseconds.
    Timer(u64),
    /// The host's own word on whether the picker is visible.
    Visible(bool),
    /// Any event that the picker has no use for.
    Other,
}

/// What the picker asks of the host.
#[derive(Clone, Copy, Debug, PartialEq, Eq, Structural)]
pub enum HostCall {
    /// Switch to the tab at this position, counted from 1.
    SwitchTab(u32),
    HideSelf,
    CloseSelf,
    /// Send a timer event after this many nanoseconds.
    SetTimeout(u64),
    /// Give the floating pane this size and no border.
    ResizePane { plugin_id: u32, cols: usize, rows: usize },
    /// Take the border off the pane, floating or not.
    SetBorderless { plugin_id: u32 },
}

} // verus!
