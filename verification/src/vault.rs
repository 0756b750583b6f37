//! The message loop of the vault application, as decisions: which message
//! an opcode stands for, what a line of input means, and what the loop does
//! next.

use vstd::prelude::*;
use crate::bytes::bytes_equal;

verus! {

/// The messages that the vault accepts.
#[derive(Clone, Copy, Debug, PartialEq, Eq, Structural)]
pub enum VaultOp {
    /// A line of text has arrived.
    Line,
    /// An incremental line of text.
    IncrementalLine,
    /// Redraw the interface.
    Redraw,
    /// The focus has changed.
    ChangeFocus,
    MenuAutotype,
    MenuEdit,
    MenuDelete,
    MenuChangeFont,
    /// Exit the application.
    Quit,
}

/// What the list view shows.
#[derive(Clone, Copy, Debug, PartialEq, Eq, Structural)]
pub enum VaultMode {
    Fido,
    Totp,
    Password,
}

/// A move in the list view.
#[derive(Clone, Copy, Debug, PartialEq, Eq, Structural)]
pub enum NavDir {
    Up,
    Down,
    PageUp,
    PageDown,
}

/// What a complete line of input asks for.
#[derive(Clone, Copy, Debug, PartialEq, Eq, Structural)]
pub enum LineAction {
    SetMode(VaultMode),
    RaiseMenu,
    Nav(NavDir),
}

/// What the loop does in answer to a message.
#[derive(Clone, Copy, Debug, PartialEq, Eq, Structural)]
pub enum VaultAction {
    /// Nothing beyond a log entry.
    Nothing,
    /// Hand the text to the search input, then ask for a redraw.
    Input,
    /// Act on a complete line, then ask for a redraw.
    Line(LineAction),
    /// Redraw the interface.
    Redraw,
    /// Let the user pick a font.
    PickFont,
    /// Leave the loop.
    Quit,
}

/// The state of the loop: whether the vault is in the foreground and may
/// draw.
#[derive(Clone, Copy, Debug, PartialEq, Eq, Structural)]
pub struct VaultLoop {
    pub allow_redraw: bool,
}

/// The message that the number `id` stands for.
pub open spec fn spec_op_from_usize(id: usize) -> Option<VaultOp> {
    if id == 0 {
        Some(VaultOp::Line)
    } else if id == 1 {
        Some(VaultOp::IncrementalLine)
    } else if id == 2 {
        Some(VaultOp::Redraw)
    } else if id == 3 {
        Some(VaultOp::ChangeFocus)
    } else if id == 4 {
        Some(VaultOp::MenuAutotype)
    } else if id == 5 {
        Some(VaultOp::MenuEdit)
    } else if id == 6 {
        Some(VaultOp::MenuDelete)
    } else if id == 7 {
        Some(VaultOp::MenuChangeFont)
    } else if id == 8 {
        Some(VaultOp::Quit)
    } else {
        None
    }
}

/// What the line `line`, as UTF-8, asks for: the four function keys pick
/// the three modes and the menu, the four arrows move in the list, and
/// anything else is a search that was confirmed, which raises the menu.
pub open spec fn spec_line_action(line: Seq<u8>) -> LineAction {
    if line == seq![0x11u8] {
        LineAction::SetMode(VaultMode::Fido)
    } else if line == seq![0x12u8] {
        LineAction::SetMode(VaultMode::Totp)
    } else if line == seq![0x13u8] {
        LineAction::SetMode(VaultMode::Password)
    } else if line == seq![0x14u8] {
        LineAction::RaiseMenu
    } else if line == seq![0xe2u8, 0x86u8, 0x93u8] {
        LineAction::Nav(NavDir::Down)
    } else if line == seq![0xe2u8, 0x86u8, 0x91u8] {
        LineAction::Nav(NavDir::Up)
    } else if line == seq![0xe2u8, 0x86u8, 0x90u8] {
        LineAction::Nav(NavDir::PageUp)
    } else if line == seq![0xe2u8, 0x86u8, 0x92u8] {
        LineAction::Nav(NavDir::PageDown)
    } else {
        LineAction::RaiseMenu
    }
}

impl VaultOp {
    /// The message that the number `id` stands for.
    pub fn from_usize(id: usize) -> (op: Option<VaultOp>)
        ensures
            op == spec_op_from_usize(id),
    {
        if id == 0 {
            Some(VaultOp::Line)
        } else if id == 1 {
            Some(VaultOp::IncrementalLine)
        } else if id == 2 {
            Some(VaultOp::Redraw)
        } else if id == 3 {
            Some(VaultOp::ChangeFocus)
        } else if id == 4 {
            Some(VaultOp::MenuAutotype)
        } else if id == 5 {
            Some(VaultOp::MenuEdit)
        } else if id == 6 {
            Some(VaultOp::MenuDelete)
        } else if id == 7 {
            Some(VaultOp::MenuChangeFont)
        } else if id == 8 {
            Some(VaultOp::Quit)
        } else {
            None
        }
    }

    /// The number that stands for the message. Every number is below 1000:
    /// the numbers from there on are kept for callbacks.
    pub fn to_usize(&self) -> (id: usize)
        ensures
            spec_op_from_usize(id) == Some(*self),
            id < 1000,
    {
        match self {
            VaultOp::Line => 0,
            VaultOp::IncrementalLine => 1,
            VaultOp::Redraw => 2,
            VaultOp::ChangeFocus => 3,
            VaultOp::MenuAutotype => 4,
            VaultOp::MenuEdit => 5,
            VaultOp::MenuDelete => 6,
            VaultOp::MenuChangeFont => 7,
            VaultOp::Quit => 8,
        }
    }
}

fn is_key(line: &[u8], code: u8) -> (same: bool)
    ensures
        same == (line@ == seq![code]),
{
    let key: [u8; 1] = [code];
    assert(key@ =~= seq![code]);
    bytes_equal(line, key.as_slice())
}

fn is_arrow(line: &[u8], last: u8) -> (same: bool)
    ensures
        same == (line@ == seq![0xe2u8, 0x86u8, last]),
{
    let key: [u8; 3] = [0xe2, 0x86, last];
    assert(key@ =~= seq![0xe2u8, 0x86u8, last]);
    bytes_equal(line, key.as_slice())
}

/// Decides what a complete line of input asks for.
pub fn line_action(line: &[u8]) -> (action: LineAction)
    ensures
        action == spec_line_action(line@),
{
    if is_key(line, 0x11) {
        LineAction::SetMode(VaultMode::Fido)
    } else if is_key(line, 0x12) {
        LineAction::SetMode(VaultMode::Totp)
    } else if is_key(line, 0x13) {
        LineAction::SetMode(VaultMode::Password)
    } else if is_key(line, 0x14) {
        LineAction::RaiseMenu
    } else if is_arrow(line, 0x93) {
        LineAction::Nav(NavDir::Down)
    } else if is_arrow(line, 0x91) {
        LineAction::Nav(NavDir::Up)
    } else if is_arrow(line, 0x90) {
        LineAction::Nav(NavDir::PageUp)
    } else if is_arrow(line, 0x92) {
        LineAction::Nav(NavDir::PageDown)
    } else {
        LineAction::RaiseMenu
    }
}

impl VaultLoop {
    /// The loop before any message: in the background.
    pub fn new() -> (state: VaultLoop)
        ensures
            !state.allow_redraw,
    {
        VaultLoop { allow_redraw: false }
    }

    /// What the loop does in answer to message `id`, and how it changes.
    /// `line` is the text that came with the message, if it carries text;
    /// `foreground` says, for a change of focus, where the vault now is.
    pub open spec fn spec_step(self, id: usize, line: Seq<u8>, foreground: bool) -> (
        VaultLoop,
        VaultAction,
    ) {
        match spec_op_from_usize(id) {
            Some(VaultOp::IncrementalLine) => (self, VaultAction::Input),
            Some(VaultOp::Line) => (self, VaultAction::Line(spec_line_action(line))),
            Some(VaultOp::Redraw) => (
                self,
                if self.allow_redraw {
                    VaultAction::Redraw
                } else {
                    VaultAction::Nothing
                },
            ),
            Some(VaultOp::ChangeFocus) => (
                VaultLoop { allow_redraw: foreground },
                VaultAction::Nothing,
            ),
            Some(VaultOp::MenuChangeFont) => (self, VaultAction::PickFont),
            Some(VaultOp::Quit) => (self, VaultAction::Quit),
            _ => (self, VaultAction::Nothing),
        }
    }

    /// Takes one message.
    pub fn step(&mut self, id: usize, line: &[u8], foreground: bool) -> (action: VaultAction)
        ensures
            (*final(self), action) == old(self).spec_step(id, line@, foreground),
    {
        match VaultOp::from_usize(id) {
            Some(VaultOp::IncrementalLine) => VaultAction::Input,
            Some(VaultOp::Line) => VaultAction::Line(line_action(line)),
            Some(VaultOp::Redraw) => {
                if self.allow_redraw {
                    VaultAction::Redraw
                } else {
                    VaultAction::Nothing
                }
            },
            Some(VaultOp::ChangeFocus) => {
                self.allow_redraw = foreground;
                VaultAction::Nothing
            },
            Some(VaultOp::MenuChangeFont) => VaultAction::PickFont,
            Some(VaultOp::Quit) => VaultAction::Quit,
            _ => VaultAction::Nothing,
        }
    }

    /// True when the loop asks for a redraw after the action: after every
    /// input, whether a whole line or part of one.
    pub fn redraw_after(action: VaultAction) -> (wanted: bool)
        ensures
            wanted == (action is Input || action is Line),
    {
        match action {
            VaultAction::Input => true,
            VaultAction::Line(_) => true,
            _ => false,
        }
    }
}

} // verus!
