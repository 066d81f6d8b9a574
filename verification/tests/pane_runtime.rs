use std::cell::RefCell;
use std::collections::VecDeque;
use std::rc::Rc;

use ulti::geometry::TerminalSize;
use ulti::pane::{screen_text, send_character_input, PaneRuntime};
use ulti::render::{draw_terminal, Glyph, ScreenView, CURSOR, FOREGROUND};
use ulti::session::{InputRecord, SizeRecord, TerminalSession, TerminalSessionError};

#[derive(Default)]
struct FakeState {
    input: Vec<Vec<u8>>,
    output: VecDeque<Result<Vec<u8>, TerminalSessionError>>,
    resizes: Vec<TerminalSize>,
    fail_resize: bool,
}

#[derive(Clone, Default)]
struct FakeTerminalSession {
    state: Rc<RefCell<FakeState>>,
}

impl FakeTerminalSession {
    fn push_output(&self, bytes: &[u8]) {
        self.state.borrow_mut().output.push_back(Ok(bytes.to_vec()));
    }

    fn push_output_error(&self, error: TerminalSessionError) {
        self.state.borrow_mut().output.push_back(Err(error));
    }

    fn input(&self) -> Vec<Vec<u8>> {
        self.state.borrow().input.clone()
    }

    fn resizes(&self) -> Vec<TerminalSize> {
        self.state.borrow().resizes.clone()
    }

    fn fail_resizes(&self) {
        self.state.borrow_mut().fail_resize = true;
    }
}

impl TerminalSession for FakeTerminalSession {
    // The two records are specification functions: the library's proofs
    // reason about them, and nothing calls them at run time.
    fn received_input(&self) -> InputRecord {
        panic!("a specification function has no run-time value")
    }

    fn received_sizes(&self) -> SizeRecord {
        panic!("a specification function has no run-time value")
    }

    fn delivered_output(&self) -> InputRecord {
        panic!("a specification function has no run-time value")
    }

    fn write_input(&mut self, bytes: Vec<u8>) -> Result<(), TerminalSessionError> {
        self.state.borrow_mut().input.push(bytes);
        Ok(())
    }

    fn try_read_output(&mut self) -> Result<Option<Vec<u8>>, TerminalSessionError> {
        self.state.borrow_mut().output.pop_front().transpose()
    }

    fn resize(&mut self, size: TerminalSize) -> Result<(), TerminalSessionError> {
        if self.state.borrow().fail_resize {
            return Err(TerminalSessionError::ResizeClosed);
        }
        self.state.borrow_mut().resizes.push(size);
        Ok(())
    }
}

fn terminal_size(rows: u16, cols: u16) -> TerminalSize {
    TerminalSize {
        rows,
        cols,
        pixel_width: 800,
        pixel_height: 600,
    }
}

/// The text of the cell at `(row, col)` of the pane's screen.
fn cell_contents<S: TerminalSession>(runtime: &PaneRuntime<S>, row: u16, col: u16) -> String {
    let text = screen_text(runtime.parser());
    let (_, cols) = text.size();
    text.cell_chars(usize::from(row) * usize::from(cols) + usize::from(col))
        .iter()
        .collect()
}

/// The size of the pane's parsed screen.
fn screen_size<S: TerminalSession>(runtime: &PaneRuntime<S>) -> (u16, u16) {
    screen_text(runtime.parser()).size()
}

/// The cursor position on the pane's parsed screen.
fn cursor<S: TerminalSession>(runtime: &PaneRuntime<S>) -> (u16, u16) {
    screen_text(runtime.parser()).cursor()
}

/// Drains every pending chunk, as the window loop does before each event.
fn drain_output<S: TerminalSession>(
    runtime: &mut PaneRuntime<S>,
) -> Result<bool, TerminalSessionError> {
    let mut changed = false;
    while let Some(fed) = runtime.drain_next()? {
        changed |= fed;
    }
    Ok(changed)
}

#[test]
fn write_input_forwards_bytes_to_terminal_session() {
    let session = FakeTerminalSession::default();
    let mut runtime = PaneRuntime::new(terminal_size(2, 8), session.clone());

    runtime.write_input(b"ls\r".to_vec()).unwrap();

    assert_eq!(session.input(), vec![b"ls\r".to_vec()]);
}

#[test]
fn drain_output_processes_pending_bytes_and_reports_redraw() {
    let session = FakeTerminalSession::default();
    session.push_output(b"hi");
    let mut runtime = PaneRuntime::new(terminal_size(2, 8), session);

    assert!(drain_output(&mut runtime).unwrap());
    assert_eq!(
        cell_contents(&runtime, 0, 0),
        "h"
    );
    assert_eq!(
        cell_contents(&runtime, 0, 1),
        "i"
    );
    assert!(!drain_output(&mut runtime).unwrap());
}

#[test]
fn drain_output_returns_terminal_session_errors() {
    let session = FakeTerminalSession::default();
    session.push_output_error(TerminalSessionError::OutputClosed);
    let mut runtime = PaneRuntime::new(terminal_size(2, 8), session);

    assert_eq!(
        drain_output(&mut runtime).unwrap_err(),
        TerminalSessionError::OutputClosed
    );
}

#[test]
fn resize_updates_terminal_session_and_parser_grid() {
    let session = FakeTerminalSession::default();
    let mut runtime = PaneRuntime::new(terminal_size(2, 8), session.clone());
    let next_size = terminal_size(4, 12);

    runtime.resize(next_size).unwrap();

    assert_eq!(session.resizes(), vec![next_size]);
    assert_eq!(screen_size(&runtime), (4, 12));
}

#[test]
fn new_pane_parser_matches_terminal_size() {
    let session = FakeTerminalSession::default();
    let runtime = PaneRuntime::new(terminal_size(3, 7), session);
    assert_eq!(screen_size(&runtime), (3, 7));
    assert_eq!(runtime.size(), terminal_size(3, 7));
}

#[test]
fn failed_session_resize_keeps_parser_size() {
    let session = FakeTerminalSession::default();
    session.fail_resizes();
    let mut runtime = PaneRuntime::new(terminal_size(2, 8), session.clone());

    assert_eq!(
        runtime.resize(terminal_size(5, 9)),
        Err(TerminalSessionError::ResizeClosed)
    );
    assert_eq!(screen_size(&runtime), (2, 8));
    assert_eq!(runtime.size(), terminal_size(2, 8));
    assert!(session.resizes().is_empty());
}

#[test]
fn drain_next_processes_one_chunk_at_a_time() {
    let session = FakeTerminalSession::default();
    session.push_output(b"a");
    session.push_output(b"b");
    let mut runtime = PaneRuntime::new(terminal_size(2, 8), session);

    assert_eq!(runtime.drain_next(), Ok(Some(true)));
    assert_eq!(cell_contents(&runtime, 0, 0), "a");
    assert_eq!(cell_contents(&runtime, 0, 1), "");
    assert_eq!(runtime.drain_next(), Ok(Some(true)));
    assert_eq!(cell_contents(&runtime, 0, 1), "b");
    assert_eq!(runtime.drain_next(), Ok(None));
}

#[test]
fn drain_processes_chunks_before_an_error() {
    let session = FakeTerminalSession::default();
    session.push_output(b"ok");
    session.push_output_error(TerminalSessionError::OutputClosed);
    let mut runtime = PaneRuntime::new(terminal_size(2, 8), session);

    assert_eq!(
        drain_output(&mut runtime),
        Err(TerminalSessionError::OutputClosed)
    );
    assert_eq!(cell_contents(&runtime, 0, 1), "k");
}

#[test]
fn absorb_output_answers_each_read() {
    let session = FakeTerminalSession::default();
    let mut runtime = PaneRuntime::new(terminal_size(2, 8), session);

    assert_eq!(runtime.absorb_output(Ok(None)), Ok(None));
    assert_eq!(runtime.absorb_output(Ok(Some(Vec::new()))), Ok(Some(false)));
    assert_eq!(runtime.absorb_output(Ok(Some(b"x".to_vec()))), Ok(Some(true)));
    assert_eq!(cell_contents(&runtime, 0, 0), "x");
    assert_eq!(
        runtime.absorb_output(Err(TerminalSessionError::InputClosed)),
        Err(TerminalSessionError::InputClosed)
    );
}

#[test]
fn one_column_pane_takes_all_output() {
    let session = FakeTerminalSession::default();
    let mut runtime = PaneRuntime::new(terminal_size(2, 1), session);

    // A double-width character cannot fit in one column and is skipped by the parser.
    assert_eq!(runtime.absorb_output(Ok(Some("界".as_bytes().to_vec()))), Ok(Some(true)));
    assert_eq!(cell_contents(&runtime, 0, 0), "");
    assert_eq!(runtime.absorb_output(Ok(Some("é".as_bytes().to_vec()))), Ok(Some(true)));
    assert_eq!(cell_contents(&runtime, 0, 0), "é");
}

#[test]
fn send_character_input_encodes_utf8() {
    let session = FakeTerminalSession::default();
    let mut runtime = PaneRuntime::new(terminal_size(2, 8), session.clone());

    send_character_input(&mut runtime, 'a').unwrap();
    send_character_input(&mut runtime, 'é').unwrap();
    send_character_input(&mut runtime, '界').unwrap();
    send_character_input(&mut runtime, '🦀').unwrap();

    assert_eq!(
        session.input(),
        vec![
            vec![0x61],
            vec![0xc3, 0xa9],
            vec![0xe7, 0x95, 0x8c],
            vec![0xf0, 0x9f, 0xa6, 0x80],
        ]
    );
}

#[test]
fn error_messages_name_the_channel() {
    assert_eq!(
        TerminalSessionError::OutputClosed.message(),
        "terminal output channel closed"
    );
}

#[test]
fn apply_resize_follows_the_session_answer() {
    let session = FakeTerminalSession::default();
    let mut runtime = PaneRuntime::new(terminal_size(2, 8), session);

    assert_eq!(
        runtime.apply_resize(Err(TerminalSessionError::ResizeClosed), terminal_size(6, 6)),
        Err(TerminalSessionError::ResizeClosed)
    );
    assert_eq!(screen_size(&runtime), (2, 8));
    assert_eq!(runtime.apply_resize(Ok(()), terminal_size(6, 6)), Ok(()));
    assert_eq!(screen_size(&runtime), (6, 6));
    assert_eq!(runtime.size(), terminal_size(6, 6));
}

#[test]
fn empty_chunk_reports_no_change() {
    let session = FakeTerminalSession::default();
    session.push_output(b"");
    let mut runtime = PaneRuntime::new(terminal_size(2, 8), session);

    assert_eq!(runtime.drain_next(), Ok(Some(false)));
    assert_eq!(cursor(&runtime), (0, 0));
    assert_eq!(runtime.drain_next(), Ok(None));
}

#[test]
fn one_row_pane_wraps_and_scrolls() {
    let session = FakeTerminalSession::default();
    let mut runtime = PaneRuntime::new(terminal_size(1, 8), session);

    assert_eq!(runtime.absorb_output(Ok(Some(b"hi".to_vec()))), Ok(Some(true)));
    assert_eq!(cell_contents(&runtime, 0, 0), "h");
    assert_eq!(runtime.absorb_output(Ok(Some(b"3456789".to_vec()))), Ok(Some(true)));
    assert_eq!(cell_contents(&runtime, 0, 0), "9");
}

#[test]
fn very_wide_pane_takes_a_tab_at_the_end_of_a_line() {
    let session = FakeTerminalSession::default();
    let mut runtime = PaneRuntime::new(terminal_size(2, 65535), session);

    assert_eq!(runtime.absorb_output(Ok(Some(b"\x1b[1;65535Hx\t".to_vec()))), Ok(Some(true)));
    assert_eq!(cursor(&runtime), (0, 65534));
}

#[test]
fn new_pane_screen_is_blank_with_cursor_home() {
    let session = FakeTerminalSession::default();
    let runtime = PaneRuntime::new(terminal_size(2, 3), session);
    let text = screen_text(runtime.parser());

    assert_eq!(text.cell_count(), 6);
    for index in 0..6 {
        assert!(text.cell_chars(index).is_empty());
    }
    assert_eq!(cursor(&runtime), (0, 0));
}

#[test]
fn screen_text_reads_cells_in_row_major_order() {
    let session = FakeTerminalSession::default();
    session.push_output(b"ab\r\ncd");
    let mut runtime = PaneRuntime::new(terminal_size(2, 3), session);
    assert_eq!(runtime.drain_next(), Ok(Some(true)));
    let text = screen_text(runtime.parser());

    assert_eq!(text.cell_count(), 6);
    assert_eq!(text.cell_chars(0), &['a']);
    assert_eq!(text.cell_chars(1), &['b']);
    assert!(text.cell_chars(2).is_empty());
    assert_eq!(text.cell_chars(3), &['c']);
    assert_eq!(text.cell_chars(4), &['d']);
    let (rows, cols, cursor_row, cursor_col, _) = text.into_parts();
    assert_eq!((rows, cols, cursor_row, cursor_col), (2, 3, 1, 2));
}

#[test]
fn from_text_keeps_the_screen_and_matches_glyphs_per_cell() {
    let session = FakeTerminalSession::default();
    session.push_output(b"x");
    let mut runtime = PaneRuntime::new(terminal_size(1, 2), session);
    assert_eq!(runtime.drain_next(), Ok(Some(true)));
    let dot = || Glyph::new(0, 0, 1, 1, vec![255]).unwrap();

    let mismatched = ScreenView::from_text(screen_text(runtime.parser()), vec![vec![], vec![]]);
    assert!(mismatched.is_none());
    let too_few = ScreenView::from_text(screen_text(runtime.parser()), vec![vec![dot()]]);
    assert!(too_few.is_none());

    let screen =
        ScreenView::from_text(screen_text(runtime.parser()), vec![vec![dot()], vec![]]).unwrap();
    let width = 40;
    let height = 40;
    let mut frame = vec![0u8; (width * height * 4) as usize];
    draw_terminal(&mut frame, width, height, &screen);
    let pixel = |x: u32, y: u32| {
        let offset = ((y * width + x) * 4) as usize;
        [frame[offset], frame[offset + 1], frame[offset + 2], frame[offset + 3]]
    };
    // The glyph of "x" sits in the first cell; the cursor is in the second.
    assert_eq!(pixel(12, 25), FOREGROUND);
    assert_eq!(pixel(21, 12), CURSOR);
}

#[test]
fn session_records_what_it_received() {
    let session = FakeTerminalSession::default();
    let mut runtime = PaneRuntime::new(terminal_size(2, 8), session.clone());

    send_character_input(&mut runtime, 'x').unwrap();
    runtime.write_input(b"\x1b[A".to_vec()).unwrap();
    runtime.resize(terminal_size(3, 9)).unwrap();

    assert_eq!(session.input(), vec![b"x".to_vec(), b"\x1b[A".to_vec()]);
    assert_eq!(session.resizes(), vec![terminal_size(3, 9)]);
}

#[test]
fn draining_continues_past_an_empty_chunk() {
    let session = FakeTerminalSession::default();
    session.push_output(b"");
    session.push_output(b"z");
    let mut runtime = PaneRuntime::new(terminal_size(2, 8), session);

    assert_eq!(drain_output(&mut runtime), Ok(true));
    assert_eq!(cell_contents(&runtime, 0, 0), "z");
}
