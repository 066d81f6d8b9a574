//! Ulti: the verified core of a terminal emulator for agent-focused
//! terminal workspaces.
//!
//! The library holds the logic that the native window loop relies on:
//! sizing the terminal grid for a window, translating keys into terminal
//! bytes, feeding a pane's parser, deciding what each window event asks
//! for, and drawing the parsed screen into an RGBA framebuffer.

/// Window and terminal grid sizing.
pub mod geometry;
/// Framebuffer drawing of the parsed terminal screen.
pub mod render;
/// Keyboard translation into terminal input bytes.
pub mod input;
/// The terminal session a pane talks to.
pub mod session;
/// One pane: its session and parsed screen.
pub mod pane;
/// What the window loop does for each window event.
pub mod events;
/// Choosing and parsing the terminal font.
pub mod font;

