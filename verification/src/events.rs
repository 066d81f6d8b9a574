//! What the native window loop does for each window event.
//!
//! The loop itself, the window, the framebuffer and the session belong to the
//! program around the library; here each event is turned into the command
//! that the loop then carries out.

use vstd::prelude::*;
use crate::geometry::{terminal_size_for_window, TerminalSize};
use crate::input::{key_bytes, key_sequence, Key};

verus! {

/// A window event, as far as the terminal tells events apart.
#[derive(Clone, Copy, Debug, PartialEq, Eq, Structural)]
pub enum WindowEvent {
    /// The user asked to close the window.
    CloseRequested,
    /// The window's inner size changed to `width` by `height` pixels.
    Resized { width: u32, height: u32 },
    /// The held modifier keys changed; `ctrl` tells whether Ctrl is held.
    ModifiersChanged { ctrl: bool },
    /// The window received a character of text input.
    ReceivedCharacter(char),
    /// A key was pressed; `None` when the platform gave no key code.
    KeyPressed(Option<Key>),
    /// The window asked to be redrawn.
    RedrawRequested,
    /// Any other event, key releases among them.
    Other,
}

/// What the window loop does in answer to an event.
#[derive(Debug, PartialEq, Eq)]
pub enum Command {
    /// Leave the event loop.
    Exit,
    /// Resize the framebuffer to `width` by `height` pixels, then the pane to
    /// `terminal`, then ask for a redraw; leave the loop if a step fails.
    Resize { width: u32, height: u32, terminal: TerminalSize },
    /// Send the UTF-8 encoding of a printable character to the pane.
    SendCharacter(char),
    /// Send these bytes to the pane.
    SendBytes(Vec<u8>),
    /// Draw the pane into a `width` by `height` framebuffer and present it.
    Redraw { width: u32, height: u32 },
    /// Nothing to do.
    Nothing,
}

/// `c` is in the Unicode general category of control codes.
pub open spec fn is_control(c: char) -> bool {
    let v = c as u32;
    v <= 0x1F || (0x7F <= v && v <= 0x9F)
}

/// Whether `c` is a control code.
pub fn char_is_control(c: char) -> (r: bool)
    ensures
        r == is_control(c),
{
    let v = c as u32;
    v <= 0x1F || (0x7F <= v && v <= 0x9F)
}

/// What the loop remembers between events.
pub struct EventLoopState {
    /// Whether Ctrl is held.
    pub ctrl: bool,
    /// Current framebuffer width in pixels.
    pub framebuffer_width: u32,
    /// Current framebuffer height in pixels.
    pub framebuffer_height: u32,
}

/// The command that `event` asks for when the loop is in `state`. A key press
/// is answered with the bytes that `EventLoopState::handle` states, so it is
/// left out here.
pub open spec fn command_for(state: EventLoopState, event: WindowEvent) -> Command {
    match event {
        WindowEvent::CloseRequested => Command::Exit,
        WindowEvent::Resized { width, height } => Command::Resize {
            width,
            height,
            terminal: TerminalSize {
                rows: crate::geometry::cells_fitting(height as int, crate::geometry::CELL_HEIGHT as int) as u16,
                cols: crate::geometry::cells_fitting(width as int, crate::geometry::CELL_WIDTH as int) as u16,
                pixel_width: crate::geometry::capped_extent(width as int) as u16,
                pixel_height: crate::geometry::capped_extent(height as int) as u16,
            },
        },
        WindowEvent::ModifiersChanged { .. } => Command::Nothing,
        WindowEvent::ReceivedCharacter(c) => if !state.ctrl && !is_control(c) {
            Command::SendCharacter(c)
        } else {
            Command::Nothing
        },
        WindowEvent::KeyPressed(_) => Command::Nothing,
        WindowEvent::RedrawRequested => Command::Redraw {
            width: state.framebuffer_width,
            height: state.framebuffer_height,
        },
        WindowEvent::Other => Command::Nothing,
    }
}

/// The state after `event`.
pub open spec fn state_after(state: EventLoopState, event: WindowEvent) -> EventLoopState {
    match event {
        WindowEvent::Resized { width, height } => EventLoopState {
            ctrl: state.ctrl,
            framebuffer_width: width,
            framebuffer_height: height,
        },
        WindowEvent::ModifiersChanged { ctrl } => EventLoopState { ctrl, ..state },
        _ => state,
    }
}

/// A change of modifiers sets whether Ctrl is held to what the event says,
/// whatever it was before, and keeps the framebuffer size.
pub proof fn lemma_modifiers_replace_ctrl(state: EventLoopState, ctrl: bool)
    ensures
        state_after(state, WindowEvent::ModifiersChanged { ctrl }).ctrl == ctrl,
        state_after(state, WindowEvent::ModifiersChanged { ctrl }).framebuffer_width
            == state.framebuffer_width,
        state_after(state, WindowEvent::ModifiersChanged { ctrl }).framebuffer_height
            == state.framebuffer_height,
        command_for(state, WindowEvent::ModifiersChanged { ctrl }) == Command::Nothing,
{
}

/// Received text is sent exactly when Ctrl is not held and the character is
/// not a control code (`U+0000 ..= U+001F` and `U+007F ..= U+009F`): a space
/// and every other printable character reach the shell.
pub proof fn lemma_received_character(state: EventLoopState, c: char)
    ensures
        command_for(state, WindowEvent::ReceivedCharacter(c)) == if state.ctrl || (c as u32) <= 0x1F
            || (0x7F <= (c as u32) && (c as u32) <= 0x9F) {
            Command::Nothing
        } else {
            Command::SendCharacter(c)
        },
{
}

/// Once Ctrl is released, typed printable characters are sent again, however
/// the modifiers stood before.
pub proof fn lemma_release_then_type(state: EventLoopState, c: char)
    requires
        (c as u32) > 0x1F,
        !(0x7F <= (c as u32) && (c as u32) <= 0x9F),
    ensures
        command_for(
            state_after(state, WindowEvent::ModifiersChanged { ctrl: false }),
            WindowEvent::ReceivedCharacter(c),
        ) == Command::SendCharacter(c),
{
}

/// After the window is resized to `width` by `height`, a redraw draws into a
/// framebuffer of exactly that size, and whether Ctrl is held is unchanged.
pub proof fn lemma_resize_then_redraw(state: EventLoopState, width: u32, height: u32)
    ensures
        command_for(
            state_after(state, WindowEvent::Resized { width, height }),
            WindowEvent::RedrawRequested,
        ) == (Command::Redraw { width, height }),
        state_after(state, WindowEvent::Resized { width, height }).ctrl == state.ctrl,
{
}

impl EventLoopState {
    /// The state at startup: no modifier held, framebuffer of the window's
    /// inner size.
    pub fn new(width: u32, height: u32) -> (r: Self)
        ensures
            r == (EventLoopState { ctrl: false, framebuffer_width: width, framebuffer_height: height }),
    {
        EventLoopState { ctrl: false, framebuffer_width: width, framebuffer_height: height }
    }

    /// Decides what the loop does for one window event and updates the
    /// remembered state.
    ///
    /// A key press sends the bytes of `key_bytes` when there are any; every
    /// other event asks for the command that `command_for` gives.
    pub fn handle(&mut self, event: WindowEvent) -> (r: Command)
        ensures
            *final(self) == state_after(*old(self), event),
            match event {
                WindowEvent::KeyPressed(key) => match key_sequence(key, old(self).ctrl) {
                    Some(bytes) => r matches Command::SendBytes(v) && v@ == bytes,
                    None => r == Command::Nothing,
                },
                _ => r == command_for(*old(self), event),
            },
    {
        match event {
            WindowEvent::CloseRequested => Command::Exit,
            WindowEvent::Resized { width, height } => {
                self.framebuffer_width = width;
                self.framebuffer_height = height;
                Command::Resize { width, height, terminal: terminal_size_for_window(width, height) }
            },
            WindowEvent::ModifiersChanged { ctrl } => {
                self.ctrl = ctrl;
                Command::Nothing
            },
            WindowEvent::ReceivedCharacter(c) => {
                if !self.ctrl && !char_is_control(c) {
                    Command::SendCharacter(c)
                } else {
                    Command::Nothing
                }
            },
            WindowEvent::KeyPressed(key) => {
                match key_bytes(key, self.ctrl) {
                    Some(bytes) => Command::SendBytes(bytes),
                    None => Command::Nothing,
                }
            },
            WindowEvent::RedrawRequested => Command::Redraw {
                width: self.framebuffer_width,
                height: self.framebuffer_height,
            },
            WindowEvent::Other => Command::Nothing,
        }
    }
}

} // verus!
