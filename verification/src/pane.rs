//! Runtime for one pane: its terminal session and the parsed screen state.

use vstd::prelude::*;
use crate::geometry::TerminalSize;
use crate::input::encode_char;
use vstd::utf8::encode_scalar;
use crate::render::CELL_TEXT_MAX;
use vstd::arithmetic::div_mod::lemma_fundamental_div_mod_converse;
use crate::session::{TerminalSession, TerminalSessionError};

verus! {

/// A `vt100` terminal parser: it turns terminal output into a screen grid
/// of cells. The `vt100` parser type is generic over a callbacks trait that
/// this library cannot declare, so it is held here, opaque.
#[verifier::external_body]
pub struct TerminalParser {
    parser: vt100::Parser,
}

/// The screen size, as `(rows, cols)`, that a parser's grid currently has.
pub uninterp spec fn screen_size(parser: TerminalParser) -> (u16, u16);

/// The cursor position, as `(row, col)`, on a parser's screen.
pub uninterp spec fn cursor_position(parser: TerminalParser) -> (u16, u16);

/// The text of the visible cell at `(row, col)` of a parser's screen, or
/// `None` where there is no such cell.
pub uninterp spec fn cell_text(parser: TerminalParser, row: u16, col: u16) -> Option<Seq<char>>;

/// The parser after it has processed `bytes` of terminal output.
pub uninterp spec fn processed(parser: TerminalParser, bytes: Seq<u8>) -> TerminalParser;

/// How many lines of scrollback a parser keeps.
pub uninterp spec fn scrollback_capacity(parser: TerminalParser) -> usize;

/// The parser after its screen is resized to `rows` by `cols` cells.
pub uninterp spec fn resized(parser: TerminalParser, rows: u16, cols: u16) -> TerminalParser;

/// `vt100::Parser::new`: a parser whose screen has `rows` by `cols` cells and
/// keeps `scrollback_len` lines of scrollback.
///
/// Claimed: the new screen's size is `(rows, cols)`, the cursor is at the
/// origin, every cell of the screen holds no text (the main grid
/// allocates `rows` rows of `cols` empty cells and starts at position
/// `(0, 0)`), and the main grid keeps `scrollback_len` lines of scrollback. Both sides must be at least one: the parser takes them as
/// `NonZeroU16`.
#[verifier::external_body]
fn new_parser(rows: u16, cols: u16, scrollback_len: usize) -> (parser: TerminalParser)
    requires
        rows >= 1,
        cols >= 1,
    ensures
        screen_size(parser) == (rows, cols),
        cursor_position(parser) == (0u16, 0u16),
        forall|row: u16, col: u16|
            row < rows && col < cols ==> #[trigger] cell_text(parser, row, col) == Some(
                Seq::<char>::empty(),
            ),
        scrollback_capacity(parser) == scrollback_len,
{
    TerminalParser {
        parser: vt100::Parser::new(
            core::num::NonZeroU16::new(rows).unwrap(),
            core::num::NonZeroU16::new(cols).unwrap(),
            scrollback_len,
        ),
    }
}

/// `vt100::Parser::process`: feeds terminal output bytes to the parser.
///
/// Claimed: the parser becomes the one that processing `bytes` gives, and
/// its screen size is unchanged, since only `set_size` resizes the grids.
/// What the bytes do to the screen contents is left to the name `processed`.
#[verifier::external_body]
fn process_bytes(parser: &mut TerminalParser, bytes: &[u8])
    ensures
        *final(parser) == processed(*old(parser), bytes@),
        screen_size(*final(parser)) == screen_size(*old(parser)),
{
    parser.parser.process(bytes)
}

/// `vt100::Parser::set_size`: resizes the parser's screen.
///
/// Claimed: the parser becomes the one that resizing gives, and its screen
/// size becomes `(rows, cols)` (both grids take the new size). Both sides
/// must be at least one: the parser takes them as `NonZeroU16`.
#[verifier::external_body]
fn set_parser_size(parser: &mut TerminalParser, rows: u16, cols: u16)
    requires
        rows >= 1,
        cols >= 1,
    ensures
        *final(parser) == resized(*old(parser), rows, cols),
        screen_size(*final(parser)) == (rows, cols),
{
    parser.parser.set_size(
        core::num::NonZeroU16::new(rows).unwrap(),
        core::num::NonZeroU16::new(cols).unwrap(),
    )
}

/// `vt100::Screen::size` of the parser's screen.
///
/// Claimed: the result is the parser's screen size.
#[verifier::external_body]
fn parser_screen_size(parser: &TerminalParser) -> (r: (u16, u16))
    ensures
        r == screen_size(*parser),
{
    let (rows, cols) = parser.parser.screen().size();
    (rows.get(), cols.get())
}

/// `vt100::Screen::cursor_position` of the parser's screen.
///
/// Claimed: the result is the parser's cursor position.
#[verifier::external_body]
fn parser_cursor(parser: &TerminalParser) -> (r: (u16, u16))
    ensures
        r == cursor_position(*parser),
{
    parser.parser.screen().cursor_position()
}

/// `vt100::Screen::cell` and `vt100::Cell::contents` of the parser's screen,
/// the text taken as characters.
///
/// Claimed: the result is the cell's text, or `None` where the screen has no
/// such cell; a cell's text holds at most 22 bytes, so at most 22
/// characters.
#[verifier::external_body]
fn parser_cell_text(parser: &TerminalParser, row: u16, col: u16) -> (r: Option<Vec<char>>)
    ensures
        match r {
            Some(v) => cell_text(*parser, row, col) == Some(v@) && v@.len() <= 22,
            None => cell_text(*parser, row, col) is None,
        },
{
    match parser.parser.screen().cell(row, col) {
        Some(cell) => Some(cell.contents().chars().collect()),
        None => None,
    }
}

/// What a screen's text is: its size, cursor, and the text of each cell in
/// row-major order.
pub struct TextShape {
    pub rows: int,
    pub cols: int,
    pub cursor_row: int,
    pub cursor_col: int,
    pub cells: Seq<Seq<char>>,
}

impl TextShape {
    /// Size and cursor fit in a `u16`, and there is one cell per row and
    /// column.
    pub open spec fn well_formed(self) -> bool {
        &&& 0 <= self.rows <= 65535
        &&& 0 <= self.cols <= 65535
        &&& 0 <= self.cursor_row <= 65535
        &&& 0 <= self.cursor_col <= 65535
        &&& self.cells.len() == self.rows * self.cols
    }
}

/// The text of a parsed screen: size, cursor, and each cell's characters in
/// row-major order.
pub struct ScreenText {
    rows: u16,
    cols: u16,
    cursor_row: u16,
    cursor_col: u16,
    cells: Vec<Vec<char>>,
}

impl View for ScreenText {
    type V = TextShape;

    closed spec fn view(&self) -> TextShape {
        TextShape {
            rows: self.rows as int,
            cols: self.cols as int,
            cursor_row: self.cursor_row as int,
            cursor_col: self.cursor_col as int,
            cells: self.cells@.map_values(|v: Vec<char>| v@),
        }
    }
}

impl ScreenText {
    /// One cell per row and column, none with more than `CELL_TEXT_MAX`
    /// characters.
    #[verifier::type_invariant]
    closed spec fn well_formed(self) -> bool {
        &&& self.cells@.len() == self.rows * self.cols
        &&& forall|i: int| 0 <= i < self.cells@.len() ==> #[trigger] self.cells@[i]@.len() <= CELL_TEXT_MAX
    }

    /// The screen size, as `(rows, cols)`.
    pub fn size(&self) -> (r: (u16, u16))
        ensures
            r.0 == self@.rows,
            r.1 == self@.cols,
    {
        (self.rows, self.cols)
    }

    /// The cursor position, as `(row, col)`.
    pub fn cursor(&self) -> (r: (u16, u16))
        ensures
            r.0 == self@.cursor_row,
            r.1 == self@.cursor_col,
    {
        (self.cursor_row, self.cursor_col)
    }

    /// The number of cells.
    pub fn cell_count(&self) -> (r: usize)
        ensures
            r == self@.cells.len(),
    {
        self.cells.len()
    }

    /// The characters of cell `index`, counted in row-major order.
    pub fn cell_chars(&self, index: usize) -> (r: &[char])
        requires
            index < self@.cells.len(),
        ensures
            r@ == self@.cells[index as int],
    {
        self.cells[index].as_slice()
    }

    /// Takes the text apart into its size, cursor and cells.
    pub fn into_parts(self) -> (r: (u16, u16, u16, u16, Vec<Vec<char>>))
        ensures
            r.0 == self@.rows,
            r.1 == self@.cols,
            r.2 == self@.cursor_row,
            r.3 == self@.cursor_col,
            r.4@.map_values(|v: Vec<char>| v@) == self@.cells,
            r.4@.len() == r.0 * r.1,
            forall|i: int| 0 <= i < r.4@.len() ==> #[trigger] r.4@[i]@.len() <= CELL_TEXT_MAX,
    {
        proof {
            use_type_invariant(&self);
        }
        (self.rows, self.cols, self.cursor_row, self.cursor_col, self.cells)
    }
}

/// The text of the cell at `(row, col)` of the parser's screen, no text
/// where the screen has no such cell.
pub open spec fn visible_text(parser: TerminalParser, row: int, col: int) -> Seq<char> {
    match cell_text(parser, row as u16, col as u16) {
        Some(text) => text,
        None => Seq::empty(),
    }
}

/// Reads the text of the parser's screen: its size, its cursor position,
/// and each cell's characters in row-major order.
pub fn screen_text(parser: &TerminalParser) -> (r: ScreenText)
    ensures
        r@.rows == screen_size(*parser).0,
        r@.cols == screen_size(*parser).1,
        r@.cursor_row == cursor_position(*parser).0,
        r@.cursor_col == cursor_position(*parser).1,
        r@.well_formed(),
        forall|i: int|
            0 <= i < r@.cells.len() ==> #[trigger] r@.cells[i] == visible_text(
                *parser,
                i / r@.cols,
                i % r@.cols,
            ),
{
    let (rows, cols) = parser_screen_size(parser);
    let (cursor_row, cursor_col) = parser_cursor(parser);
    let mut cells: Vec<Vec<char>> = Vec::new();
    let mut row: u16 = 0;
    while row < rows
        invariant
            (rows, cols) == screen_size(*parser),
            row <= rows,
            cells@.len() == row * cols,
            forall|i: int| 0 <= i < cells@.len() ==> #[trigger] cells@[i]@.len() <= 22,
            forall|i: int|
                0 <= i < cells@.len() ==> #[trigger] cells@[i]@ == visible_text(*parser, i / cols as int, i % cols as int),
        decreases rows - row,
    {
        let mut col: u16 = 0;
        while col < cols
            invariant
                (rows, cols) == screen_size(*parser),
                row < rows,
                col <= cols,
                cells@.len() == row * cols + col,
                forall|i: int| 0 <= i < cells@.len() ==> #[trigger] cells@[i]@.len() <= 22,
                forall|i: int|
                    0 <= i < cells@.len() ==> #[trigger] cells@[i]@ == visible_text(*parser, i / cols as int, i % cols as int),
            decreases cols - col,
        {
            let text = match parser_cell_text(parser, row, col) {
                Some(chars) => chars,
                None => Vec::new(),
            };
            proof {
                lemma_fundamental_div_mod_converse(row * cols + col, cols as int, row as int, col as int);
            }
            cells.push(text);
            col = col + 1;
        }
        proof {
            assert((row + 1) * cols == row * cols + cols) by (nonlinear_arith);
        }
        row = row + 1;
    }
    let r = ScreenText { rows, cols, cursor_row, cursor_col, cells };
    proof {
        assert(r@.cells.len() == cells@.len());
    }
    r
}

/// Coordinates terminal bytes, parser state, resize behavior, and redraw
/// needs for one pane.
pub struct PaneRuntime<S> {
    session: S,
    parser: TerminalParser,
    size: TerminalSize,
}

impl<S: TerminalSession> PaneRuntime<S> {
    /// The parser's screen has the pane's size, which has at least one row and
    /// one column.
    pub closed spec fn wf(self) -> bool {
        &&& self.size.has_cells()
        &&& screen_size(self.parser) == (self.size.rows, self.size.cols)
    }

    /// The pane's current terminal size.
    pub closed spec fn terminal_size(self) -> TerminalSize {
        self.size
    }

    /// The pane's parser.
    pub closed spec fn parser_state(self) -> TerminalParser {
        self.parser
    }

    /// The pane's terminal session.
    pub closed spec fn session_state(self) -> S {
        self.session
    }

    /// Creates a pane runtime with parser dimensions matching the terminal
    /// session size: a blank screen with the cursor at its top left corner,
    /// and no scrollback.
    pub fn new(size: TerminalSize, session: S) -> (r: Self)
        requires
            size.has_cells(),
        ensures
            r.wf(),
            r.terminal_size() == size,
            screen_size(r.parser_state()) == (size.rows, size.cols),
            cursor_position(r.parser_state()) == (0u16, 0u16),
            forall|row: u16, col: u16|
                row < size.rows && col < size.cols ==> #[trigger] cell_text(r.parser_state(), row, col)
                    == Some(Seq::<char>::empty()),
            scrollback_capacity(r.parser_state()) == 0,
            r.session_state() == session,
    {
        PaneRuntime { session, parser: new_parser(size.rows, size.cols, 0), size }
    }

    /// Sends already-translated terminal input bytes into the pane's terminal
    /// session and returns what the session answers.
    ///
    /// When the session takes them, they are the next input it has received;
    /// otherwise its input channel is closed. No output is read and no size
    /// is sent.
    pub fn write_input(&mut self, bytes: Vec<u8>) -> (r: Result<(), TerminalSessionError>)
        requires
            old(self).wf(),
        ensures
            final(self).wf(),
            final(self).terminal_size() == old(self).terminal_size(),
            final(self).parser_state() == old(self).parser_state(),
            r is Ok ==> final(self).session_state().received_input() == old(
                self,
            ).session_state().received_input().push(bytes@),
            r is Err ==> r == Err::<(), TerminalSessionError>(TerminalSessionError::InputClosed)
                && final(self).session_state().received_input() == old(
                self,
            ).session_state().received_input(),
            final(self).session_state().received_sizes() == old(self).session_state().received_sizes(),
            final(self).session_state().delivered_output() == old(
                self,
            ).session_state().delivered_output(),
    {
        self.session.write_input(bytes)
    }

    /// Handles one answer of the session to a request for output.
    ///
    /// A chunk gives `Ok(Some(changed))`: a non-empty one is fed to the
    /// parser and reported as a change, an empty one leaves the parser as it
    /// was and reports none. No pending output gives `Ok(None)`, and an
    /// error is passed on; both leave the parser untouched.
    pub fn absorb_output(&mut self, read: Result<Option<Vec<u8>>, TerminalSessionError>) -> (r:
        Result<Option<bool>, TerminalSessionError>)
        requires
            old(self).wf(),
        ensures
            final(self).wf(),
            final(self).terminal_size() == old(self).terminal_size(),
            final(self).session_state() == old(self).session_state(),
            match read {
                Ok(Some(bytes)) => if bytes@.len() > 0 {
                    r == Ok::<Option<bool>, TerminalSessionError>(Some(true)) && final(self).parser_state()
                        == processed(old(self).parser_state(), bytes@)
                } else {
                    r == Ok::<Option<bool>, TerminalSessionError>(Some(false))
                        && final(self).parser_state() == old(self).parser_state()
                },
                Ok(None) => r == Ok::<Option<bool>, TerminalSessionError>(None)
                    && final(self).parser_state() == old(self).parser_state(),
                Err(e) => r == Err::<Option<bool>, TerminalSessionError>(e)
                    && final(self).parser_state() == old(self).parser_state(),
            },
    {
        match read {
            Ok(Some(bytes)) => {
                if bytes.len() > 0 {
                    process_bytes(&mut self.parser, bytes.as_slice());
                    Ok(Some(true))
                } else {
                    Ok(Some(false))
                }
            },
            Ok(None) => Ok(None),
            Err(error) => Err(error),
        }
    }

    /// Reads one pending chunk of session output, if any, and feeds it to the
    /// parser.
    ///
    /// Returns `Ok(Some(changed))` when a chunk arrived: it is the next chunk
    /// the session handed out, and `changed` tells whether it was non-empty
    /// and fed to the parser. Returns `Ok(None)` when no output is pending,
    /// and the session's error when its output channel is closed.
    pub fn drain_next(&mut self) -> (r: Result<Option<bool>, TerminalSessionError>)
        requires
            old(self).wf(),
        ensures
            final(self).wf(),
            final(self).terminal_size() == old(self).terminal_size(),
            final(self).session_state().received_input() == old(self).session_state().received_input(),
            final(self).session_state().received_sizes() == old(self).session_state().received_sizes(),
            match r {
                Ok(Some(changed)) => exists|bytes: Seq<u8>|
                    #![trigger old(self).session_state().delivered_output().push(bytes)]
                    {
                        &&& final(self).session_state().delivered_output() == old(
                            self,
                        ).session_state().delivered_output().push(bytes)
                        &&& changed == (bytes.len() > 0)
                        &&& bytes.len() > 0 ==> final(self).parser_state() == processed(
                            old(self).parser_state(),
                            bytes,
                        )
                        &&& bytes.len() == 0 ==> final(self).parser_state() == old(
                            self,
                        ).parser_state()
                    },
                Ok(None) => final(self).session_state().delivered_output() == old(
                    self,
                ).session_state().delivered_output() && final(self).parser_state() == old(
                    self,
                ).parser_state(),
                Err(e) => e == TerminalSessionError::OutputClosed
                    && final(self).session_state().delivered_output() == old(
                    self,
                ).session_state().delivered_output() && final(self).parser_state() == old(
                    self,
                ).parser_state(),
            },
    {
        let read = self.session.try_read_output();
        let ghost before = *self;
        let ghost answer = read;
        let r = self.absorb_output(read);
        proof {
            assert(before.parser_state() == old(self).parser_state());
            if let Ok(Some(bytes)) = answer {
                assert(before.session_state().delivered_output() == old(
                    self,
                ).session_state().delivered_output().push(bytes@));
                assert(self.session_state() == before.session_state());
                let b = bytes@;
                assert({
                    &&& self.session_state().delivered_output() == old(
                        self,
                    ).session_state().delivered_output().push(b)
                    &&& (r == Ok::<Option<bool>, TerminalSessionError>(Some(b.len() > 0)))
                    &&& b.len() > 0 ==> self.parser_state() == processed(old(self).parser_state(), b)
                    &&& b.len() == 0 ==> self.parser_state() == old(self).parser_state()
                });
            }
        }
        r
    }

    /// Resizes both the terminal session and the parser grid.
    ///
    /// The session is resized first; when it fails, its error is returned and
    /// the parser keeps its size. When it takes the size, it is the next size
    /// the session has received, and the parser is resized, keeping its
    /// screen.
    pub fn resize(&mut self, size: TerminalSize) -> (r: Result<(), TerminalSessionError>)
        requires
            old(self).wf(),
            size.has_cells(),
        ensures
            final(self).wf(),
            r is Ok ==> final(self).terminal_size() == size && screen_size(final(self).parser_state())
                == (size.rows, size.cols) && final(self).parser_state() == resized(
                old(self).parser_state(),
                size.rows,
                size.cols,
            ) && final(self).session_state().received_sizes() == old(
                self,
            ).session_state().received_sizes().push(size),
            r is Err ==> r == Err::<(), TerminalSessionError>(TerminalSessionError::ResizeClosed)
                && final(self).terminal_size() == old(self).terminal_size()
                && final(self).parser_state() == old(self).parser_state()
                && final(self).session_state().received_sizes() == old(
                self,
            ).session_state().received_sizes(),
            final(self).session_state().received_input() == old(self).session_state().received_input(),
            final(self).session_state().delivered_output() == old(
                self,
            ).session_state().delivered_output(),
    {
        let answer = self.session.resize(size);
        self.apply_resize(answer, size)
    }

    /// Handles the session's answer to a resize request: when the session
    /// took the new size, the parser grid and the pane take it too; when it
    /// refused, its error is passed on and the pane keeps its size.
    pub fn apply_resize(&mut self, answer: Result<(), TerminalSessionError>, size: TerminalSize) -> (r:
        Result<(), TerminalSessionError>)
        requires
            old(self).wf(),
            size.has_cells(),
        ensures
            final(self).wf(),
            final(self).session_state() == old(self).session_state(),
            match answer {
                Ok(()) => r == Ok::<(), TerminalSessionError>(()) && final(self).terminal_size() == size
                    && screen_size(final(self).parser_state()) == (size.rows, size.cols)
                    && final(self).parser_state() == resized(old(self).parser_state(), size.rows, size.cols),
                Err(e) => r == Err::<(), TerminalSessionError>(e) && final(self).terminal_size() == old(
                    self,
                ).terminal_size() && final(self).parser_state() == old(self).parser_state(),
            },
    {
        match answer {
            Ok(()) => {},
            Err(error) => return Err(error),
        }
        set_parser_size(&mut self.parser, size.rows, size.cols);
        self.size = size;
        Ok(())
    }

    /// Returns the parsed terminal screen state used by the renderer.
    pub fn parser(&self) -> (r: &TerminalParser)
        ensures
            *r == self.parser_state(),
    {
        &self.parser
    }

    /// Returns the pane's current terminal size.
    pub fn size(&self) -> (r: TerminalSize)
        ensures
            r == self.terminal_size(),
    {
        self.size
    }
}

/// Encodes one printable character as UTF-8 and sends it to the terminal
/// input stream.
///
/// When the session takes it, the encoding is the next input it has
/// received.
pub fn send_character_input<S: TerminalSession>(pane_runtime: &mut PaneRuntime<S>, character: char) -> (r:
    Result<(), TerminalSessionError>)
    requires
        old(pane_runtime).wf(),
    ensures
        final(pane_runtime).wf(),
        final(pane_runtime).terminal_size() == old(pane_runtime).terminal_size(),
        final(pane_runtime).parser_state() == old(pane_runtime).parser_state(),
        r is Ok ==> final(pane_runtime).session_state().received_input() == old(
            pane_runtime,
        ).session_state().received_input().push(encode_scalar(character as u32)),
        r is Err ==> r == Err::<(), TerminalSessionError>(TerminalSessionError::InputClosed)
            && final(pane_runtime).session_state().received_input() == old(
            pane_runtime,
        ).session_state().received_input(),
        final(pane_runtime).session_state().received_sizes() == old(
            pane_runtime,
        ).session_state().received_sizes(),
        final(pane_runtime).session_state().delivered_output() == old(
            pane_runtime,
        ).session_state().delivered_output(),
{
    let bytes = encode_char(character);
    pane_runtime.write_input(bytes)
}

} // verus!
