//! The key events and frame-level results the console exchanges with its
//! host. The host translates its own key representation into these plain
//! values before handing them to the dispatch table.

use vstd::prelude::*;

verus! {

/// The keys the console's dispatch table distinguishes. Every other key is
/// delivered as `Other` and passes through to the underlying text buffer.
#[derive(Clone, Copy, PartialEq, Eq, Structural, Debug)]
pub enum Key {
    ArrowDown,
    ArrowUp,
    ArrowLeft,
    ArrowRight,
    Enter,
    Delete,
    Backspace,
    Escape,
    Tab,
    R,
    Other,
}

/// Modifier state delivered with a key press.
#[derive(Clone, Copy, PartialEq, Eq, Structural, Debug)]
pub struct Modifiers {
    pub alt: bool,
    pub ctrl: bool,
    pub shift: bool,
    pub mac_cmd: bool,
    pub command: bool,
}

impl Modifiers {
    /// No modifier held.
    pub open spec fn is_plain(&self) -> bool {
        !self.alt && !self.ctrl && !self.shift && !self.mac_cmd && !self.command
    }

    /// The reverse-search hotkey chord: ctrl (and the platform command bit)
    /// alone.
    pub open spec fn is_search_chord(&self) -> bool {
        !self.alt && self.ctrl && !self.shift && !self.mac_cmd && self.command
    }

    pub fn none() -> (r: Modifiers)
        ensures
            r.is_plain(),
            r == (Modifiers { alt: false, ctrl: false, shift: false, mac_cmd: false, command: false }),
    {
        Modifiers { alt: false, ctrl: false, shift: false, mac_cmd: false, command: false }
    }

    pub fn ctrl_command() -> (r: Modifiers)
        ensures
            r.is_search_chord(),
            r == (Modifiers { alt: false, ctrl: true, shift: false, mac_cmd: false, command: true }),
    {
        Modifiers { alt: false, ctrl: true, shift: false, mac_cmd: false, command: true }
    }
}

/// What one frame of console interaction reports to the host.
pub enum ConsoleEvent {
    /// Enter completed a line: dispatch it.
    Command(String),
    /// The interrupt chord.
    CtrlC,
    /// Nothing to dispatch this frame.
    Quiet,
}

/// A completion query the host must resolve against the filesystem and hand
/// back through `tab_apply`.
pub struct TabRequest {
    /// The completion prefix (the last token, any leading quote stripped).
    pub prefix: String,
    /// Which match (0-based) is asked for.
    pub nth: usize,
}

/// The outcome of processing one frame's key presses in order.
pub struct BatchResult {
    /// The presses the console consumed, in order: the host must swallow
    /// these so its text widget does not also act on them.
    pub consumed: Vec<(Key, Modifiers)>,
    /// The first submitted line; processing stopped there and later presses
    /// of the frame were dropped.
    pub submitted: Option<String>,
    /// A completion query to resolve, with the index of the next
    /// unprocessed press: resolve it through `tab_apply`, then continue the
    /// frame from that index.
    pub pending: Option<(TabRequest, usize)>,
}

/// The outcome of handling one key press.
pub enum KeyAction {
    /// Not consumed: the host applies its default text-edit behavior.
    Passthrough,
    /// Consumed, nothing further to do.
    Consumed,
    /// Enter completed a line; it has been pushed to history.
    Submitted(String),
    /// Tab asked for a completion: resolve it and call `tab_apply`.
    Complete(TabRequest),
}

} // verus!
