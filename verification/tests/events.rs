use ulti::events::{Command, EventLoopState, WindowEvent};
use ulti::geometry::TerminalSize;
use ulti::input::Key;

#[test]
fn close_request_exits() {
    let mut state = EventLoopState::new(100, 100);
    assert_eq!(state.handle(WindowEvent::CloseRequested), Command::Exit);
}

#[test]
fn resize_updates_framebuffer_and_terminal_size() {
    let mut state = EventLoopState::new(100, 100);
    assert_eq!(
        state.handle(WindowEvent::Resized { width: 924, height: 600 }),
        Command::Resize {
            width: 924,
            height: 600,
            terminal: TerminalSize { rows: 32, cols: 100, pixel_width: 924, pixel_height: 600 },
        }
    );
    assert_eq!(
        state.handle(WindowEvent::RedrawRequested),
        Command::Redraw { width: 924, height: 600 }
    );
}

#[test]
fn characters_are_sent_unless_ctrl_or_control() {
    let mut state = EventLoopState::new(100, 100);
    assert_eq!(state.handle(WindowEvent::ReceivedCharacter('q')), Command::SendCharacter('q'));
    assert_eq!(state.handle(WindowEvent::ReceivedCharacter('\u{8}')), Command::Nothing);
    assert_eq!(state.handle(WindowEvent::ModifiersChanged { ctrl: true }), Command::Nothing);
    assert!(state.ctrl);
    assert_eq!(state.handle(WindowEvent::ReceivedCharacter('q')), Command::Nothing);
}

#[test]
fn key_presses_send_translated_bytes() {
    let mut state = EventLoopState::new(100, 100);
    assert_eq!(state.handle(WindowEvent::KeyPressed(Some(Key::Up))), Command::SendBytes(b"\x1b[A".to_vec()));
    assert_eq!(state.handle(WindowEvent::KeyPressed(Some(Key::C))), Command::Nothing);
    state.handle(WindowEvent::ModifiersChanged { ctrl: true });
    assert_eq!(state.handle(WindowEvent::KeyPressed(Some(Key::C))), Command::SendBytes(vec![3]));
    assert_eq!(state.handle(WindowEvent::Other), Command::Nothing);
}

