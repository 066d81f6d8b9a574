//! The terminal session that a pane talks to.

use vstd::prelude::*;
use crate::geometry::TerminalSize;

verus! {

/// Why a terminal session stopped taking input, giving output, or resizing.
#[derive(Clone, Copy, Debug, PartialEq, Eq, Structural)]
pub enum TerminalSessionError {
    /// The session no longer accepts input bytes.
    InputClosed,
    /// The session's output stream has ended.
    OutputClosed,
    /// The session no longer accepts resize requests.
    ResizeClosed,
}

impl TerminalSessionError {
    /// A short human-readable description of the failure.
    pub fn message(&self) -> (r: &'static str)
        ensures
            r@ == match self {
                TerminalSessionError::InputClosed => "terminal input channel closed"@,
                TerminalSessionError::OutputClosed => "terminal output channel closed"@,
                TerminalSessionError::ResizeClosed => "terminal resize channel closed"@,
            },
    {
        match self {
            TerminalSessionError::InputClosed => "terminal input channel closed",
            TerminalSessionError::OutputClosed => "terminal output channel closed",
            TerminalSessionError::ResizeClosed => "terminal resize channel closed",
        }
    }
}

/// The program a new session runs: the configured shell when there is one,
/// `/bin/fish` otherwise.
pub fn shell_program(configured: Option<String>) -> (r: String)
    ensures
        r@ == match configured {
            Some(shell) => shell@,
            None => "/bin/fish"@,
        },
{
    match configured {
        Some(shell) => shell,
        None => "/bin/fish".to_owned(),
    }
}

/// The input chunks a session has been handed, oldest first.
pub type InputRecord = Seq<Seq<u8>>;

/// The sizes a session has been told about, oldest first.
pub type SizeRecord = Seq<TerminalSize>;

/// A running shell or terminal program attached to one pane.
///
/// An implementation keeps three records of what has passed between it and
/// the program: the input it accepted, the sizes it accepted, and the output
/// chunks it handed out. Each method appends to its own record only what it
/// accepted or handed out, and leaves the other records alone. Each method
/// fails only with the error of its own channel. Whether it succeeds is its
/// own to decide, so every caller handles each outcome.
pub trait TerminalSession {
    /// The input chunks the program has been handed, oldest first.
    spec fn received_input(&self) -> InputRecord;

    /// The sizes the program has been told about, oldest first.
    spec fn received_sizes(&self) -> SizeRecord;

    /// The output chunks handed out so far, oldest first.
    spec fn delivered_output(&self) -> InputRecord;

    /// Sends already-translated input bytes to the program.
    fn write_input(&mut self, bytes: Vec<u8>) -> (r: Result<(), TerminalSessionError>)
        ensures
            r is Ok ==> final(self).received_input() == old(self).received_input().push(bytes@),
            r is Err ==> final(self).received_input() == old(self).received_input(),
            r is Err ==> r == Err::<(), TerminalSessionError>(TerminalSessionError::InputClosed),
            final(self).received_sizes() == old(self).received_sizes(),
            final(self).delivered_output() == old(self).delivered_output(),
    ;

    /// Takes the next pending chunk of program output, if any has arrived.
    fn try_read_output(&mut self) -> (r: Result<Option<Vec<u8>>, TerminalSessionError>)
        ensures
            match r {
                Ok(Some(bytes)) => final(self).delivered_output() == old(self).delivered_output().push(
                    bytes@,
                ),
                Ok(None) => final(self).delivered_output() == old(self).delivered_output(),
                Err(e) => e == TerminalSessionError::OutputClosed && final(self).delivered_output()
                    == old(self).delivered_output(),
            },
            final(self).received_input() == old(self).received_input(),
            final(self).received_sizes() == old(self).received_sizes(),
    ;

    /// Tells the program about a new terminal size.
    fn resize(&mut self, size: TerminalSize) -> (r: Result<(), TerminalSessionError>)
        ensures
            r is Ok ==> final(self).received_sizes() == old(self).received_sizes().push(size),
            r is Err ==> final(self).received_sizes() == old(self).received_sizes(),
            r is Err ==> r == Err::<(), TerminalSessionError>(TerminalSessionError::ResizeClosed),
            final(self).received_input() == old(self).received_input(),
            final(self).delivered_output() == old(self).delivered_output(),
    ;
}

} // verus!
